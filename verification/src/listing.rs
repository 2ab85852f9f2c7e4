//! What the store prints when it lists a folder, turned into names.
//!
//! Each line of a listing names one entry. Round the name stands what the
//! store adds: blank space, a tag of four bytes in front (`PRE ` before a
//! folder), and `/` behind a folder's name.

use vstd::prelude::*;
use crate::error::PipelineError;
use crate::text::{
    chars_filling, chars_of, count_filling, line_end, skip_leading_space, skip_trailing,
    skip_trailing_space, split_lines, string_from, trimmed, views, without_trailing,
};

verus! {

/// How many bytes the tag in front of a name takes.
pub const TAG_BYTES: usize = 4;

/// The name that a line of a listing gives: the line without the blank
/// space round it, without its first `TAG_BYTES` bytes, and without the
/// slashes at its end. A line that is shorter than the tag gives none, nor
/// one in which a character lies across the tag's end.
pub open spec fn entry_of(line: Seq<char>) -> Option<Seq<char>> {
    let bare = trimmed(line);
    match chars_filling(bare, TAG_BYTES as nat) {
        Some(k) => Some(without_trailing(bare.skip(k as int), '/')),
        None => None,
    }
}

/// The names that the lines give, in order, where each line gives one.
pub open spec fn entries_of_lines(lines: Seq<Seq<char>>) -> Option<Seq<Seq<char>>> {
    if forall|i: int| 0 <= i < lines.len() ==> (#[trigger] entry_of(lines[i])) is Some {
        Some(Seq::new(lines.len(), |i: int| entry_of(lines[i]).unwrap()))
    } else {
        None
    }
}

/// The names that a listing gives.
pub open spec fn entries_of(output: Seq<char>) -> Option<Seq<Seq<char>>> {
    entries_of_lines(split_lines(output))
}

/// The name that the line `chars[lo..hi]` gives.
fn entry_name(chars: &Vec<char>, lo: usize, hi: usize) -> (r: Option<String>)
    requires
        lo <= hi <= chars.len(),
    ensures
        match r {
            Some(name) => entry_of(chars@.subrange(lo as int, hi as int)) == Some(name@),
            None => entry_of(chars@.subrange(lo as int, hi as int)) is None,
        },
{
    let start = skip_leading_space(chars, lo, hi);
    let end = skip_trailing_space(chars, start, hi);
    let ghost bare = chars@.subrange(start as int, end as int);
    assert(bare == trimmed(chars@.subrange(lo as int, hi as int)));
    match count_filling(chars, start, end, TAG_BYTES) {
        None => None,
        Some(k) => {
            let from = start + k;
            assert(bare.skip(k as int) =~= chars@.subrange(from as int, end as int));
            let to = skip_trailing(chars, from, end, '/');
            Some(string_from(chars, from, to))
        },
    }
}

/// The names of the entries that a listing shows, in the listing's order.
///
/// Fails with `MalformedListingLine` where, and only where, a line gives no
/// name.
pub fn entry_names(output: &str) -> (r: Result<Vec<String>, PipelineError>)
    ensures
        match r {
            Ok(names) => entries_of(output@) == Some(views(names@)),
            Err(e) => e == PipelineError::MalformedListingLine && entries_of(output@) is None,
        },
{
    let chars = chars_of(output);
    let mut names: Vec<String> = Vec::new();
    let mut pos: usize = 0;
    let ghost lines = split_lines(output@);
    let ghost mut read: Seq<Seq<char>> = Seq::empty();
    assert(chars@.skip(0) =~= chars@);
    assert(read + lines =~= lines);
    while pos < chars.len()
        invariant
            pos <= chars.len(),
            lines == split_lines(output@),
            lines == read + split_lines(chars@.skip(pos as int)),
            names.len() == read.len(),
            forall|i: int| 0 <= i < read.len() ==> entry_of(#[trigger] read[i]) == Some(names[i]@),
        decreases chars.len() - pos,
    {
        let hi = line_end(&chars, pos);
        let next: usize = if hi < chars.len() {
            hi + 1
        } else {
            hi
        };
        let ghost rest = chars@.skip(pos as int);
        let ghost line = chars@.subrange(pos as int, hi as int);
        proof {
            assert(rest.take(hi - pos) =~= line);
            if hi < chars.len() {
                assert(rest.skip(hi - pos + 1) =~= chars@.skip(next as int));
            } else {
                assert(rest =~= line);
                assert(chars@.skip(next as int) =~= Seq::<char>::empty());
            }
            assert(split_lines(rest) =~= seq![line] + split_lines(chars@.skip(next as int)));
            assert(lines =~= read.push(line) + split_lines(chars@.skip(next as int)));
            assert(lines[read.len() as int] == line);
        }
        match entry_name(&chars, pos, hi) {
            None => {
                assert(entry_of(lines[read.len() as int]) is None);
                return Err(PipelineError::MalformedListingLine);
            },
            Some(name) => {
                names.push(name);
            },
        }
        proof {
            read = read.push(line);
        }
        pos = next;
    }
    proof {
        assert(chars@.skip(pos as int) =~= Seq::<char>::empty());
        assert(lines =~= read);
        assert forall|i: int| 0 <= i < lines.len() implies (#[trigger] entry_of(lines[i])) is Some by {
            assert(entry_of(read[i]) == Some(names[i]@));
        }
        assert(views(names@) =~= Seq::new(lines.len(), |i: int| entry_of(lines[i]).unwrap())) by {
            assert forall|i: int| 0 <= i < lines.len() implies views(names@)[i] == entry_of(
                lines[i],
            ).unwrap() by {
                assert(entry_of(read[i]) == Some(names[i]@));
            }
        }
    }
    Ok(names)
}

} // verus!
