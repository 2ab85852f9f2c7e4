//! The way down to the newest file: year, day, hour, file.
//!
//! At each of the three levels of folders the greatest number is taken; in
//! the hour's folder the file that is listed last. The store is asked by the
//! caller: a `Search` says which folder it wants listed, takes the listing,
//! and goes one level down.

use vstd::prelude::*;
use vstd::string::StringExecFns;
use crate::decimal::{
    all_digits, decimal_digits, decimal_value, digits_exceed, folder_number,
    lemma_digits_write_their_number, lemma_written_name_is_read_back, parse_folder_number,
    two_wide,
};
use crate::error::PipelineError;
use crate::text::{
    chars_of, last_token, last_word_start, skip_trailing_space, string_from, views,
};

verus! {

/// What a search is about to choose.
#[derive(Debug, Clone, Copy, PartialEq, Eq, Structural)]
pub enum Stage {
    /// The year, among the folders of the product.
    Year,
    /// The day, among the folders of the year.
    Day,
    /// The hour, among the folders of the day.
    Hour,
    /// The file, among those of the hour.
    File,
    /// Nothing more: the file is chosen.
    Done,
}

/// The stage that follows `stage`.
pub open spec fn next_stage(stage: Stage) -> Stage {
    match stage {
        Stage::Year => Stage::Day,
        Stage::Day => Stage::Hour,
        Stage::Hour => Stage::File,
        Stage::File => Stage::Done,
        Stage::Done => Stage::Done,
    }
}

impl Stage {
    /// The stage that follows this one.
    pub fn next(self) -> (r: Stage)
        ensures
            r == next_stage(self),
    {
        match self {
            Stage::Year => Stage::Day,
            Stage::Day => Stage::Hour,
            Stage::Hour => Stage::File,
            Stage::File => Stage::Done,
            Stage::Done => Stage::Done,
        }
    }
}

/// `path` with `folder` below it.
pub open spec fn joined(path: Seq<char>, folder: Seq<char>) -> Seq<char> {
    path + seq!['/'] + folder
}

/// The number that `name` stands for, and zero where it stands for none.
pub open spec fn number_of(name: Seq<char>) -> nat {
    match folder_number(name) {
        Some(n) => n,
        None => 0,
    }
}

/// Whether every name stands for a number.
pub open spec fn all_numbered(entries: Seq<Seq<char>>) -> bool {
    forall|i: int| 0 <= i < entries.len() ==> folder_number(#[trigger] entries[i]) is Some
}

/// The greatest of the numbers that the names stand for.
pub open spec fn biggest_number(entries: Seq<Seq<char>>) -> nat
    decreases entries.len(),
{
    if entries.len() == 0 {
        0
    } else {
        let before = biggest_number(entries.drop_last());
        let last = number_of(entries.last());
        if last > before {
            last
        } else {
            before
        }
    }
}

/// The number of the folder to go into: the greatest, where there is a
/// folder and every folder has a number.
pub open spec fn biggest(entries: Seq<Seq<char>>) -> Result<nat, PipelineError> {
    if entries.len() == 0 {
        Err(PipelineError::EmptyDirectory)
    } else if !all_numbered(entries) {
        Err(PipelineError::MalformedHierarchy)
    } else {
        Ok(biggest_number(entries))
    }
}

/// How the folder with the number `n` is written in a path. An hour takes
/// two places at least; a year and a day are written as they count.
pub open spec fn segment(stage: Stage, n: nat) -> Seq<char> {
    if stage == Stage::Hour {
        two_wide(decimal_digits(n))
    } else {
        decimal_digits(n)
    }
}

/// The path of the newest file of a folder: the folder's path and, below
/// it, the last word of the last line of its listing.
pub open spec fn newest_file(bucket: Seq<char>, files: Seq<Seq<char>>) -> Result<
    Seq<char>,
    PipelineError,
> {
    if files.len() == 0 {
        Err(PipelineError::EmptyDirectory)
    } else {
        match last_token(files.last()) {
            Some(name) => Ok(joined(bucket, name)),
            None => Err(PipelineError::MalformedListingLine),
        }
    }
}

/// Where a search that stands at `path`, about to choose `stage`, goes on
/// the listing of `path`.
pub open spec fn advanced(path: Seq<char>, stage: Stage, listing: Seq<Seq<char>>) -> Result<
    Seq<char>,
    PipelineError,
> {
    match stage {
        Stage::File => newest_file(path, listing),
        Stage::Done => Ok(path),
        _ => match biggest(listing) {
            Ok(n) => Ok(joined(path, segment(stage, n))),
            Err(e) => Err(e),
        },
    }
}

/// Among names that all stand for numbers, the number chosen is the number
/// of one of them, and none of them has a greater one. Numbers are compared,
/// not the names: how long a name is plays no part. The name that is written
/// for the number chosen stands for that number.
pub proof fn lemma_biggest_is_greatest(entries: Seq<Seq<char>>)
    requires
        entries.len() > 0,
        all_numbered(entries),
    ensures
        exists|i: int|
            0 <= i < entries.len() && folder_number(#[trigger] entries[i]) == Some(
                biggest_number(entries),
            ),
        forall|i: int|
            0 <= i < entries.len() ==> number_of(#[trigger] entries[i]) <= biggest_number(entries),
        folder_number(decimal_digits(biggest_number(entries))) == Some(biggest_number(entries)),
    decreases entries.len(),
{
    lemma_written_name_is_read_back(biggest_number(entries));
    let before = entries.drop_last();
    let last = entries.len() - 1;
    assert(folder_number(entries[last]) is Some);
    if before.len() == 0 {
        assert(biggest_number(before) == 0);
        assert(folder_number(entries[last]) == Some(biggest_number(entries)));
    } else {
        assert forall|i: int| 0 <= i < before.len() implies folder_number(
            #[trigger] before[i],
        ) is Some by {
            assert(before[i] == entries[i]);
        }
        lemma_biggest_is_greatest(before);
        let w = choose|i: int|
            0 <= i < before.len() && folder_number(#[trigger] before[i]) == Some(
                biggest_number(before),
            );
        assert(before[w] == entries[w]);
        if number_of(entries[last]) > biggest_number(before) {
            assert(folder_number(entries[last]) == Some(biggest_number(entries)));
        } else {
            assert(folder_number(entries[w]) == Some(biggest_number(entries)));
        }
        assert forall|i: int| 0 <= i < entries.len() implies number_of(#[trigger] entries[i])
            <= biggest_number(entries) by {
            if i < before.len() {
                assert(before[i] == entries[i]);
            }
        }
    }
}

/// An hour below one hundred is written in exactly two digits, with a zero
/// in front where it is below ten, and the two digits write the hour.
pub proof fn lemma_hour_takes_two_digits(hour: nat)
    requires
        hour < 100,
    ensures
        segment(Stage::Hour, hour).len() == 2,
        all_digits(segment(Stage::Hour, hour)),
        decimal_value(segment(Stage::Hour, hour)) == hour,
{
    lemma_digits_write_their_number(hour);
    let s = decimal_digits(hour);
    if hour < 10 {
        let t = seq!['0'] + s;
        assert(t =~= seq!['0', s[0]]);
        assert(t.drop_last() =~= seq!['0']);
        assert(seq!['0'].drop_last() =~= Seq::<char>::empty());
        assert(s.drop_last() =~= Seq::<char>::empty());
        reveal_with_fuel(decimal_value, 3);
    } else {
        lemma_digits_write_their_number(hour / 10);
        assert(hour / 10 < 10);
    }
}

/// Three levels down from `root`, on listings whose names all stand for
/// numbers, lies the folder `root/year/day/hour`, each the greatest of its
/// listing, the hour in two places.
pub proof fn lemma_descent_reaches_bucket(
    root: Seq<char>,
    years: Seq<Seq<char>>,
    days: Seq<Seq<char>>,
    hours: Seq<Seq<char>>,
)
    requires
        years.len() > 0 && all_numbered(years),
        days.len() > 0 && all_numbered(days),
        hours.len() > 0 && all_numbered(hours),
    ensures
        advanced(root, Stage::Year, years) matches Ok(year) && advanced(year, Stage::Day, days)
            matches Ok(day) && advanced(day, Stage::Hour, hours) == Ok::<Seq<char>, PipelineError>(
            root + seq!['/'] + decimal_digits(biggest_number(years)) + seq!['/'] + decimal_digits(
                biggest_number(days),
            ) + seq!['/'] + two_wide(decimal_digits(biggest_number(hours))),
        ),
{
}

/// Puts `folder_name` below `path`: a slash, then the name.
pub fn append_folder(path: &mut String, folder_name: String)
    ensures
        final(path)@ == joined(old(path)@, folder_name@),
{
    path.push('/');
    path.append(folder_name.as_str());
    assert(old(path)@.push('/') + folder_name@ =~= old(path)@ + seq!['/'] + folder_name@);
}

/// The name of the folder to go into: among `entries`, the names of the
/// folders at one level, the greatest number, written in decimal digits.
///
/// Fails with `EmptyDirectory` where there is no entry, and with
/// `MalformedHierarchy` where an entry stands for no number.
pub fn biggest_folder(entries: &Vec<String>) -> (r: Result<String, PipelineError>)
    ensures
        match r {
            Ok(name) => biggest(views(entries@)) matches Ok(n) && name@ == decimal_digits(n),
            Err(e) => biggest(views(entries@)) == Err::<nat, PipelineError>(e),
        },
{
    let ghost names = views(entries@);
    if entries.len() == 0 {
        return Err(PipelineError::EmptyDirectory);
    }
    let mut best = String::new();
    best.push('0');
    let mut i: usize = 0;
    assert(names.take(0) =~= Seq::<Seq<char>>::empty());
    assert(best@ =~= decimal_digits(0));
    while i < entries.len()
        invariant
            i <= entries.len(),
            names == views(entries@),
            forall|k: int| 0 <= k < i ==> folder_number(#[trigger] names[k]) is Some,
            best@ == decimal_digits(biggest_number(names.take(i as int))),
        decreases entries.len() - i,
    {
        assert(names[i as int] == entries@[i as int]@);
        assert(names.take(i + 1).drop_last() =~= names.take(i as int));
        match parse_folder_number(entries[i].as_str()) {
            None => {
                return Err(PipelineError::MalformedHierarchy);
            },
            Some(written) => {
                proof {
                    lemma_digits_write_their_number(number_of(names[i as int]));
                    lemma_digits_write_their_number(biggest_number(names.take(i as int)));
                }
                if digits_exceed(written.as_str(), best.as_str()) {
                    best = written;
                }
            },
        }
        i += 1;
    }
    assert(names.take(i as int) =~= names);
    Ok(best)
}

/// The hour's place in a path: `hour` with zeros in front until it has two
/// characters.
pub fn hour_segment(hour: &str) -> (r: String)
    ensures
        r@ == two_wide(hour@),
{
    let width = chars_of(hour).len();
    let mut r = String::new();
    if width < 2 {
        r.push('0');
    }
    if width < 1 {
        r.push('0');
    }
    r.append(hour);
    assert(r@ =~= two_wide(hour@));
    r
}

/// The path of the newest file in the hour's folder `bucket`, whose listing
/// is `files`: below the folder, the last word of the last line.
///
/// Fails with `EmptyDirectory` where nothing is listed, and with
/// `MalformedListingLine` where the last line holds no word.
pub fn most_recent_file_path(bucket: &str, files: &Vec<String>) -> (r: Result<
    String,
    PipelineError,
>)
    ensures
        match r {
            Ok(path) => newest_file(bucket@, views(files@)) == Ok::<Seq<char>, PipelineError>(
                path@,
            ),
            Err(e) => newest_file(bucket@, views(files@)) == Err::<Seq<char>, PipelineError>(e),
        },
{
    if files.len() == 0 {
        return Err(PipelineError::EmptyDirectory);
    }
    let last = files.len() - 1;
    assert(views(files@).last() == files@[last as int]@);
    let chars = chars_of(files[last].as_str());
    assert(chars@.subrange(0, chars.len() as int) =~= chars@);
    let end = skip_trailing_space(&chars, 0, chars.len());
    let start = last_word_start(&chars, 0, end);
    if start == end {
        return Err(PipelineError::MalformedListingLine);
    }
    let name = string_from(&chars, start, end);
    let mut path = String::from_str(bucket);
    append_folder(&mut path, name);
    Ok(path)
}

/// A search for the newest file of a product: the path reached so far, and
/// what is to be chosen below it.
#[derive(Debug)]
pub struct Search {
    /// Where the search stands. Until the search is done this is the folder
    /// whose listing it needs next; then it is the file.
    pub path: String,
    /// What the search chooses next.
    pub stage: Stage,
}

impl Search {
    /// A search that stands at the product's folder and has the year to
    /// choose.
    pub fn new(product: &str) -> (s: Search)
        ensures
            s.path@ == product@,
            s.stage == Stage::Year,
    {
        Search { path: String::from_str(product), stage: Stage::Year }
    }

    /// Whether the file has been chosen.
    pub fn is_done(&self) -> (b: bool)
        ensures
            b == (self.stage == Stage::Done),
    {
        self.stage == Stage::Done
    }

    /// Goes one level down, on the listing of the folder at which the
    /// search stands. At a level of folders it goes into the one with the
    /// greatest number; in the hour's folder it takes the file listed last.
    /// A search that is done stays as it is.
    ///
    /// Fails as `biggest_folder` and `most_recent_file_path` do.
    pub fn advance(self, listing: &Vec<String>) -> (r: Result<Search, PipelineError>)
        ensures
            match r {
                Ok(next) => advanced(self.path@, self.stage, views(listing@)) == Ok::<
                    Seq<char>,
                    PipelineError,
                >(next.path@) && next.stage == next_stage(self.stage),
                Err(e) => advanced(self.path@, self.stage, views(listing@)) == Err::<
                    Seq<char>,
                    PipelineError,
                >(e),
            },
    {
        match self.stage {
            Stage::Done => Ok(self),
            Stage::File => {
                match most_recent_file_path(self.path.as_str(), listing) {
                    Ok(path) => Ok(Search { path, stage: Stage::Done }),
                    Err(e) => Err(e),
                }
            },
            stage => {
                match biggest_folder(listing) {
                    Ok(name) => {
                        let folder = if stage == Stage::Hour {
                            hour_segment(name.as_str())
                        } else {
                            name
                        };
                        let mut path = self.path;
                        append_folder(&mut path, folder);
                        Ok(Search { path, stage: stage.next() })
                    },
                    Err(e) => Err(e),
                }
            },
        }
    }
}

} // verus!
