//! Characters, blank space, lines and words.
//!
//! Text is taken apart as a vector of characters, by positions: a pair
//! `lo <= hi` stands for the piece `chars[lo..hi]`.

use vstd::prelude::*;

verus! {

broadcast use vstd::string::group_string_axioms;

/// `String::push` of the standard library, which puts one character at the
/// end of the string and leaves the rest as it was.
pub assume_specification[ String::push ](s: &mut String, c: char)
    ensures
        final(s)@ == old(s)@.push(c),
;

/// The characters of `s`, in order.
pub fn chars_of(s: &str) -> (v: Vec<char>)
    ensures
        v@ == s@,
{
    let mut v: Vec<char> = Vec::new();
    for c in it: s.chars()
        invariant
            it.seq() == s@,
            v@ == s@.take(it.index() as int),
    {
        v.push(c);
        assert(s@.take(it.index() + 1) =~= s@.take(it.index() as int).push(c));
    }
    assert(s@.take(s@.len() as int) =~= s@);
    v
}

/// The string made of `chars[lo..hi]`.
pub fn string_from(chars: &Vec<char>, lo: usize, hi: usize) -> (s: String)
    requires
        lo <= hi <= chars.len(),
    ensures
        s@ == chars@.subrange(lo as int, hi as int),
{
    let mut s = String::new();
    let mut i: usize = lo;
    while i < hi
        invariant
            lo <= i <= hi <= chars.len(),
            s@ == chars@.subrange(lo as int, i as int),
        decreases hi - i,
    {
        s.push(chars[i]);
        assert(chars@.subrange(lo as int, i + 1) =~= chars@.subrange(lo as int, i as int).push(
            chars@[i as int],
        ));
        i += 1;
    }
    s
}

/// The views of the strings of a list, in order.
pub open spec fn views(names: Seq<String>) -> Seq<Seq<char>> {
    Seq::new(names.len(), |i: int| names[i]@)
}

/// Blank space: the characters with the Unicode property `White_Space`.
pub open spec fn is_space(c: char) -> bool {
    let u = c as u32;
    ||| 0x09 <= u <= 0x0D
    ||| u == 0x20
    ||| u == 0x85
    ||| u == 0xA0
    ||| u == 0x1680
    ||| 0x2000 <= u <= 0x200A
    ||| u == 0x2028
    ||| u == 0x2029
    ||| u == 0x202F
    ||| u == 0x205F
    ||| u == 0x3000
}

/// Whether `c` is blank space.
pub fn is_whitespace(c: char) -> (b: bool)
    ensures
        b == is_space(c),
{
    let u: u32 = c as u32;
    (0x09 <= u && u <= 0x0D) || u == 0x20 || u == 0x85 || u == 0xA0 || u == 0x1680 || (0x2000 <= u
        && u <= 0x200A) || u == 0x2028 || u == 0x2029 || u == 0x202F || u == 0x205F || u == 0x3000
}

/// `s` without the blank space it begins with.
pub open spec fn trim_start(s: Seq<char>) -> Seq<char>
    decreases s.len(),
{
    if s.len() > 0 && is_space(s.first()) {
        trim_start(s.drop_first())
    } else {
        s
    }
}

/// `s` without the blank space it ends with.
pub open spec fn trim_end(s: Seq<char>) -> Seq<char>
    decreases s.len(),
{
    if s.len() > 0 && is_space(s.last()) {
        trim_end(s.drop_last())
    } else {
        s
    }
}

/// `s` without the blank space at either end.
pub open spec fn trimmed(s: Seq<char>) -> Seq<char> {
    trim_end(trim_start(s))
}

/// `s` without the run of `c` it ends with.
pub open spec fn without_trailing(s: Seq<char>, c: char) -> Seq<char>
    decreases s.len(),
{
    if s.len() > 0 && s.last() == c {
        without_trailing(s.drop_last(), c)
    } else {
        s
    }
}

/// The longest piece at the end of `s` that holds no blank space.
pub open spec fn last_word(s: Seq<char>) -> Seq<char>
    decreases s.len(),
{
    if s.len() > 0 && !is_space(s.last()) {
        last_word(s.drop_last()).push(s.last())
    } else {
        Seq::empty()
    }
}

/// The last of the words of `line`, which blank space parts from each other;
/// none where the line holds blank space only.
pub open spec fn last_token(line: Seq<char>) -> Option<Seq<char>> {
    let word = last_word(trim_end(line));
    if word.len() > 0 {
        Some(word)
    } else {
        None
    }
}

/// How many characters stand before the first line feed of `s`.
pub open spec fn first_line_len(s: Seq<char>) -> nat
    decreases s.len(),
{
    if s.len() == 0 || s.first() == '\n' {
        0
    } else {
        1 + first_line_len(s.drop_first())
    }
}

/// The lines of `text`: the pieces between its line feeds. A line feed at
/// the very end opens no further line, and a carriage return stays with its
/// line, where it counts as blank space.
pub open spec fn split_lines(text: Seq<char>) -> Seq<Seq<char>>
    decreases text.len(),
{
    if text.len() == 0 {
        Seq::empty()
    } else {
        let n = first_line_len(text) as int;
        if n < text.len() {
            seq![text.take(n)] + split_lines(text.skip(n + 1))
        } else {
            seq![text]
        }
    }
}

/// The number of bytes that `c` takes in UTF-8.
pub open spec fn utf8_width(c: char) -> nat {
    let u = c as u32;
    if u < 0x80 {
        1
    } else if u < 0x800 {
        2
    } else if u < 0x10000 {
        3
    } else {
        4
    }
}

/// How many characters at the start of `s` fill exactly `bytes` bytes in
/// UTF-8; none where `s` is shorter or a character straddles that place.
pub open spec fn chars_filling(s: Seq<char>, bytes: nat) -> Option<nat>
    decreases s.len(),
{
    if bytes == 0 {
        Some(0nat)
    } else if s.len() == 0 || utf8_width(s.first()) > bytes {
        None
    } else {
        match chars_filling(s.drop_first(), (bytes - utf8_width(s.first())) as nat) {
            Some(k) => Some(k + 1),
            None => None,
        }
    }
}

/// How many bytes `s` takes in UTF-8.
pub open spec fn utf8_len(s: Seq<char>) -> nat
    decreases s.len(),
{
    if s.len() == 0 {
        0
    } else {
        utf8_width(s.first()) + utf8_len(s.drop_first())
    }
}

/// A text takes as many bytes as its UTF-8 encoding has.
pub proof fn lemma_utf8_len_is_encoded_len(s: Seq<char>)
    ensures
        utf8_len(s) == vstd::utf8::encode_utf8(s).len(),
    decreases s.len(),
{
    if s.len() > 0 {
        vstd::utf8::char_is_scalar(s.first());
        lemma_utf8_len_is_encoded_len(s.drop_first());
    }
}

/// Taking the blank space off the start takes only blank space, takes it
/// from the start, and leaves none there.
pub proof fn lemma_trim_start_takes_blank_space(s: Seq<char>)
    ensures
        trim_start(s).len() <= s.len(),
        trim_start(s) == s.skip(s.len() - trim_start(s).len()),
        forall|i: int| 0 <= i < s.len() - trim_start(s).len() ==> is_space(#[trigger] s[i]),
        trim_start(s).len() > 0 ==> !is_space(trim_start(s).first()),
    decreases s.len(),
{
    if s.len() > 0 && is_space(s.first()) {
        let t = s.drop_first();
        lemma_trim_start_takes_blank_space(t);
        let k = t.len() - trim_start(t).len();
        assert(t.skip(k) =~= s.skip(k + 1));
        assert forall|i: int| 0 <= i < s.len() - trim_start(s).len() implies is_space(
            #[trigger] s[i],
        ) by {
            if i > 0 {
                assert(s[i] == t[i - 1]);
            }
        }
    } else {
        assert(s.skip(0) =~= s);
    }
}

/// Taking the blank space off the end takes only blank space, takes it from
/// the end, and leaves none there.
pub proof fn lemma_trim_end_takes_blank_space(s: Seq<char>)
    ensures
        trim_end(s).len() <= s.len(),
        trim_end(s) == s.take(trim_end(s).len() as int),
        forall|i: int| trim_end(s).len() <= i < s.len() ==> is_space(#[trigger] s[i]),
        trim_end(s).len() > 0 ==> !is_space(trim_end(s).last()),
    decreases s.len(),
{
    if s.len() > 0 && is_space(s.last()) {
        let t = s.drop_last();
        lemma_trim_end_takes_blank_space(t);
        let n = trim_end(t).len() as int;
        assert(t.take(n) =~= s.take(n));
        assert forall|i: int| trim_end(s).len() <= i < s.len() implies is_space(#[trigger] s[i]) by {
            if i < t.len() {
                assert(s[i] == t[i]);
            }
        }
    } else {
        assert(s.take(s.len() as int) =~= s);
    }
}

/// What is left of `s` without the blank space at either end is the piece
/// of `s` from its first character that is not blank to its last one: all
/// before it and all after it is blank, and it neither begins nor ends with
/// blank space.
pub proof fn lemma_trimmed_is_the_core(s: Seq<char>)
    ensures
        exists|lo: int, hi: int|
            {
                &&& 0 <= lo <= hi <= s.len()
                &&& #[trigger] s.subrange(lo, hi) == trimmed(s)
                &&& forall|i: int| 0 <= i < lo ==> is_space(#[trigger] s[i])
                &&& forall|i: int| hi <= i < s.len() ==> is_space(#[trigger] s[i])
                &&& lo < hi ==> !is_space(s[lo]) && !is_space(s[hi - 1])
            },
{
    lemma_trim_start_takes_blank_space(s);
    let a = trim_start(s);
    lemma_trim_end_takes_blank_space(a);
    let lo = s.len() - a.len();
    let hi = lo + trim_end(a).len();
    assert(s.subrange(lo, hi) =~= a.take(trim_end(a).len() as int));
    assert forall|i: int| hi <= i < s.len() implies is_space(#[trigger] s[i]) by {
        assert(s[i] == a[i - lo]);
    }
    if lo < hi {
        assert(a.first() == s[lo]);
        assert(trim_end(a).last() == s[hi - 1]);
    }
}

/// Taking a run of `c` off the end takes only `c`, takes it from the end,
/// and leaves none there.
pub proof fn lemma_without_trailing_takes_the_run(s: Seq<char>, c: char)
    ensures
        without_trailing(s, c).len() <= s.len(),
        without_trailing(s, c) == s.take(without_trailing(s, c).len() as int),
        forall|i: int| without_trailing(s, c).len() <= i < s.len() ==> #[trigger] s[i] == c,
        without_trailing(s, c).len() > 0 ==> without_trailing(s, c).last() != c,
    decreases s.len(),
{
    if s.len() > 0 && s.last() == c {
        let t = s.drop_last();
        lemma_without_trailing_takes_the_run(t, c);
        let n = without_trailing(t, c).len() as int;
        assert(t.take(n) =~= s.take(n));
        assert forall|i: int| without_trailing(s, c).len() <= i < s.len() implies #[trigger] s[i]
            == c by {
            if i < t.len() {
                assert(s[i] == t[i]);
            }
        }
    } else {
        assert(s.take(s.len() as int) =~= s);
    }
}

/// The last word of `s` is the end of `s`, holds no blank space, and has
/// blank space before it or nothing.
pub proof fn lemma_last_word_is_the_end(s: Seq<char>)
    ensures
        last_word(s).len() <= s.len(),
        last_word(s) == s.skip(s.len() - last_word(s).len()),
        forall|i: int| s.len() - last_word(s).len() <= i < s.len() ==> !is_space(#[trigger] s[i]),
        last_word(s).len() < s.len() ==> is_space(s[s.len() - last_word(s).len() - 1]),
    decreases s.len(),
{
    if s.len() > 0 && !is_space(s.last()) {
        let t = s.drop_last();
        lemma_last_word_is_the_end(t);
        let k = t.len() - last_word(t).len();
        assert(t.skip(k).push(s.last()) =~= s.skip(k));
        assert forall|i: int| s.len() - last_word(s).len() <= i < s.len() implies !is_space(
            #[trigger] s[i],
        ) by {
            if i < t.len() {
                assert(s[i] == t[i]);
            }
        }
        if last_word(s).len() < s.len() {
            assert(s[k - 1] == t[k - 1]);
        }
    } else {
        assert(s.skip(s.len() as int) =~= Seq::<char>::empty());
    }
}

/// No line holds a line feed.
pub proof fn lemma_lines_hold_no_line_feed(text: Seq<char>)
    ensures
        forall|i: int, j: int|
            0 <= i < split_lines(text).len() && 0 <= j < split_lines(text)[i].len()
                ==> #[trigger] split_lines(text)[i][j] != '\n',
    decreases text.len(),
{
    if text.len() > 0 {
        lemma_first_line_stops_at_line_feed(text);
        let n = first_line_len(text) as int;
        if n < text.len() {
            let rest = text.skip(n + 1);
            lemma_lines_hold_no_line_feed(rest);
            assert forall|i: int, j: int|
                0 <= i < split_lines(text).len() && 0 <= j < split_lines(text)[i].len()
                    implies #[trigger] split_lines(text)[i][j] != '\n' by {
                if i > 0 {
                    assert(split_lines(text)[i] == split_lines(rest)[i - 1]);
                }
            }
        }
    }
}

/// The first line is as long as the text or stops before a line feed, and
/// holds none.
pub proof fn lemma_first_line_stops_at_line_feed(s: Seq<char>)
    ensures
        first_line_len(s) <= s.len(),
        first_line_len(s) < s.len() ==> s[first_line_len(s) as int] == '\n',
        forall|i: int| 0 <= i < first_line_len(s) ==> #[trigger] s[i] != '\n',
    decreases s.len(),
{
    if s.len() == 0 || s.first() == '\n' {
    } else {
        lemma_first_line_stops_at_line_feed(s.drop_first());
        let t = s.drop_first();
        assert forall|i: int| 0 <= i < first_line_len(s) implies #[trigger] s[i] != '\n' by {
            if i > 0 {
                assert(s[i] == t[i - 1]);
            }
        }
    }
}

/// The characters counted at the start of `s` are those, and only those,
/// that take `bytes` bytes together.
pub proof fn lemma_chars_filling_counts_bytes(s: Seq<char>, bytes: nat, k: nat)
    ensures
        chars_filling(s, bytes) == Some(k) <==> k <= s.len() && utf8_len(s.take(k as int)) == bytes,
    decreases s.len(),
{
    if k == 0 {
        assert(s.take(0) =~= Seq::<char>::empty());
    } else if k <= s.len() {
        assert(s.take(k as int).first() == s.first());
        assert(s.take(k as int).drop_first() =~= s.drop_first().take(k - 1));
    }
    if bytes > 0 && s.len() > 0 && utf8_width(s.first()) <= bytes && k > 0 {
        lemma_chars_filling_counts_bytes(
            s.drop_first(),
            (bytes - utf8_width(s.first())) as nat,
            (k - 1) as nat,
        );
    }
}

/// Where the blank space at the start of `chars[lo..hi]` ends.
pub fn skip_leading_space(chars: &Vec<char>, lo: usize, hi: usize) -> (start: usize)
    requires
        lo <= hi <= chars.len(),
    ensures
        lo <= start <= hi,
        chars@.subrange(start as int, hi as int) == trim_start(
            chars@.subrange(lo as int, hi as int),
        ),
{
    let mut i: usize = lo;
    while i < hi && is_whitespace(chars[i])
        invariant
            lo <= i <= hi <= chars.len(),
            trim_start(chars@.subrange(i as int, hi as int)) == trim_start(
                chars@.subrange(lo as int, hi as int),
            ),
        decreases hi - i,
    {
        assert(chars@.subrange(i as int, hi as int).drop_first() =~= chars@.subrange(
            i + 1,
            hi as int,
        ));
        i += 1;
    }
    i
}

/// Where the blank space at the end of `chars[lo..hi]` begins.
pub fn skip_trailing_space(chars: &Vec<char>, lo: usize, hi: usize) -> (end: usize)
    requires
        lo <= hi <= chars.len(),
    ensures
        lo <= end <= hi,
        chars@.subrange(lo as int, end as int) == trim_end(chars@.subrange(lo as int, hi as int)),
{
    let mut j: usize = hi;
    while j > lo && is_whitespace(chars[j - 1])
        invariant
            lo <= j <= hi <= chars.len(),
            trim_end(chars@.subrange(lo as int, j as int)) == trim_end(
                chars@.subrange(lo as int, hi as int),
            ),
        decreases j - lo,
    {
        assert(chars@.subrange(lo as int, j as int).drop_last() =~= chars@.subrange(
            lo as int,
            j - 1,
        ));
        j -= 1;
    }
    j
}

/// Where the run of `c` at the end of `chars[lo..hi]` begins.
pub fn skip_trailing(chars: &Vec<char>, lo: usize, hi: usize, c: char) -> (end: usize)
    requires
        lo <= hi <= chars.len(),
    ensures
        lo <= end <= hi,
        chars@.subrange(lo as int, end as int) == without_trailing(
            chars@.subrange(lo as int, hi as int),
            c,
        ),
{
    let mut j: usize = hi;
    while j > lo && chars[j - 1] == c
        invariant
            lo <= j <= hi <= chars.len(),
            without_trailing(chars@.subrange(lo as int, j as int), c) == without_trailing(
                chars@.subrange(lo as int, hi as int),
                c,
            ),
        decreases j - lo,
    {
        assert(chars@.subrange(lo as int, j as int).drop_last() =~= chars@.subrange(
            lo as int,
            j - 1,
        ));
        j -= 1;
    }
    j
}

/// Where the last word of `chars[lo..hi]` begins, the piece being one that
/// does not end in blank space.
pub fn last_word_start(chars: &Vec<char>, lo: usize, hi: usize) -> (start: usize)
    requires
        lo <= hi <= chars.len(),
    ensures
        lo <= start <= hi,
        chars@.subrange(start as int, hi as int) == last_word(
            chars@.subrange(lo as int, hi as int),
        ),
{
    let mut i: usize = hi;
    assert(last_word(chars@.subrange(lo as int, hi as int)) + chars@.subrange(
        hi as int,
        hi as int,
    ) =~= last_word(chars@.subrange(lo as int, hi as int)));
    while i > lo && !is_whitespace(chars[i - 1])
        invariant
            lo <= i <= hi <= chars.len(),
            last_word(chars@.subrange(lo as int, hi as int)) == last_word(
                chars@.subrange(lo as int, i as int),
            ) + chars@.subrange(i as int, hi as int),
        decreases i - lo,
    {
        proof {
            let head = chars@.subrange(lo as int, i as int);
            assert(head.drop_last() =~= chars@.subrange(lo as int, i - 1));
            assert(last_word(head.drop_last()).push(head.last()) + chars@.subrange(
                i as int,
                hi as int,
            ) =~= last_word(head.drop_last()) + chars@.subrange(i - 1, hi as int));
        }
        i -= 1;
    }
    assert(Seq::<char>::empty() + chars@.subrange(i as int, hi as int) =~= chars@.subrange(
        i as int,
        hi as int,
    ));
    i
}

/// Where the line that begins at `lo` ends: at the next line feed, or at
/// the end of `chars`.
pub fn line_end(chars: &Vec<char>, lo: usize) -> (hi: usize)
    requires
        lo <= chars.len(),
    ensures
        lo <= hi <= chars.len(),
        hi - lo == first_line_len(chars@.skip(lo as int)),
{
    let mut i: usize = lo;
    while i < chars.len() && chars[i] != '\n'
        invariant
            lo <= i <= chars.len(),
            first_line_len(chars@.skip(lo as int)) == (i - lo) + first_line_len(
                chars@.skip(i as int),
            ),
        decreases chars.len() - i,
    {
        assert(chars@.skip(i as int).drop_first() =~= chars@.skip(i + 1));
        i += 1;
    }
    i
}

/// The number of bytes that `c` takes in UTF-8.
pub fn char_width(c: char) -> (w: usize)
    ensures
        w == utf8_width(c),
{
    let u: u32 = c as u32;
    if u < 0x80 {
        1
    } else if u < 0x800 {
        2
    } else if u < 0x10000 {
        3
    } else {
        4
    }
}

/// How many characters at the start of `chars[lo..hi]` fill exactly `bytes`
/// bytes.
pub fn count_filling(chars: &Vec<char>, lo: usize, hi: usize, bytes: usize) -> (r: Option<usize>)
    requires
        lo <= hi <= chars.len(),
    ensures
        match r {
            Some(k) => lo + k <= hi && chars_filling(
                chars@.subrange(lo as int, hi as int),
                bytes as nat,
            ) == Some(k as nat),
            None => chars_filling(chars@.subrange(lo as int, hi as int), bytes as nat) is None,
        },
{
    let mut i: usize = lo;
    let mut left: usize = bytes;
    while left > 0
        invariant
            lo <= i <= hi <= chars.len(),
            chars_filling(chars@.subrange(lo as int, hi as int), bytes as nat) == (match chars_filling(
                chars@.subrange(i as int, hi as int),
                left as nat,
            ) {
                Some(k) => Some((k + (i - lo)) as nat),
                None => None,
            }),
        decreases left,
    {
        if i >= hi {
            return None;
        }
        let w = char_width(chars[i]);
        if w > left {
            return None;
        }
        assert(chars@.subrange(i as int, hi as int).drop_first() =~= chars@.subrange(
            i + 1,
            hi as int,
        ));
        left -= w;
        i += 1;
    }
    Some(i - lo)
}

} // verus!
