//! Numbers as folder names carry them: decimal digits, read, compared and
//! written anew.
//!
//! A name may write a number of any size, so numbers are never held in a
//! machine word: they are compared as digits.

use vstd::prelude::*;
use crate::text::{chars_of, string_from};

verus! {

/// Whether `c` is one of the ten decimal digits.
pub open spec fn is_digit(c: char) -> bool {
    '0' <= c <= '9'
}

/// What the digit `c` counts for; nothing where `c` is no digit.
pub open spec fn digit_value(c: char) -> nat {
    if is_digit(c) {
        (c as u32 - 48) as nat
    } else {
        0
    }
}

/// The digit that counts for `d`, for `d` below ten.
pub open spec fn digit_char(d: nat) -> char {
    if d == 0 {
        '0'
    } else if d == 1 {
        '1'
    } else if d == 2 {
        '2'
    } else if d == 3 {
        '3'
    } else if d == 4 {
        '4'
    } else if d == 5 {
        '5'
    } else if d == 6 {
        '6'
    } else if d == 7 {
        '7'
    } else if d == 8 {
        '8'
    } else {
        '9'
    }
}

/// Whether `s` holds decimal digits only.
pub open spec fn all_digits(s: Seq<char>) -> bool {
    forall|i: int| 0 <= i < s.len() ==> is_digit(#[trigger] s[i])
}

/// The number that the digits of `s` write, the first digit counting most.
pub open spec fn decimal_value(s: Seq<char>) -> nat
    decreases s.len(),
{
    if s.len() == 0 {
        0
    } else {
        decimal_value(s.drop_last()) * 10 + digit_value(s.last())
    }
}

/// The digits that write `n`, without a zero in front.
pub open spec fn decimal_digits(n: nat) -> Seq<char>
    decreases n,
{
    if n < 10 {
        seq![digit_char(n)]
    } else {
        decimal_digits(n / 10).push(digit_char(n % 10))
    }
}

/// `s` brought to two characters at least, by zeros in front.
pub open spec fn two_wide(s: Seq<char>) -> Seq<char> {
    if s.len() >= 2 {
        s
    } else if s.len() == 1 {
        seq!['0'] + s
    } else {
        seq!['0', '0']
    }
}

/// `name` without the sign that it may begin with.
pub open spec fn unsigned_part(name: Seq<char>) -> Seq<char> {
    if name.len() > 0 && (name.first() == '+' || name.first() == '-') {
        name.drop_first()
    } else {
        name
    }
}

/// Whether `s` writes a number plainly: in digits, one at least, and with
/// no zero in front of another digit.
pub open spec fn is_plain(s: Seq<char>) -> bool {
    s.len() >= 1 && all_digits(s) && (s.len() > 1 ==> s.first() != '0')
}

/// The number that a folder's name stands for. A name is an integer in
/// decimal digits, as many as one likes, with `+` or `-` in front where one
/// likes, and it stands for a number from zero up. Any other name stands
/// for none: one without a digit, one with another character in it, one
/// below zero.
pub open spec fn folder_number(name: Seq<char>) -> Option<nat> {
    let digits = unsigned_part(name);
    let value = decimal_value(digits);
    if digits.len() > 0 && all_digits(digits) && (name.first() == '-' ==> value == 0) {
        Some(value)
    } else {
        None
    }
}

/// A digit is the digit that counts for its value.
pub proof fn lemma_digit_is_written_back(c: char)
    requires
        is_digit(c),
    ensures
        digit_value(c) < 10,
        digit_char(digit_value(c)) == c,
{
    let u = c as u32;
    vstd::utf8::char_u32_cast(c, u);
    if u == 48 {
        assert(c == '0');
    } else if u == 49 {
        assert(c == '1');
    } else if u == 50 {
        assert(c == '2');
    } else if u == 51 {
        assert(c == '3');
    } else if u == 52 {
        assert(c == '4');
    } else if u == 53 {
        assert(c == '5');
    } else if u == 54 {
        assert(c == '6');
    } else if u == 55 {
        assert(c == '7');
    } else if u == 56 {
        assert(c == '8');
    } else {
        assert(c == '9');
    }
}

/// Writing a number gives it plainly, and reading the digits gives the
/// number back.
pub proof fn lemma_digits_write_their_number(n: nat)
    ensures
        is_plain(decimal_digits(n)),
        decimal_value(decimal_digits(n)) == n,
        n < 10 <==> decimal_digits(n).len() == 1,
    decreases n,
{
    if n < 10 {
        let s = decimal_digits(n);
        assert(s.drop_last() =~= Seq::<char>::empty());
        assert(decimal_value(s.drop_last()) == 0);
    } else {
        lemma_digits_write_their_number(n / 10);
        let head = decimal_digits(n / 10);
        let s = head.push(digit_char(n % 10));
        assert(s.drop_last() =~= head);
        assert(s.last() == digit_char(n % 10));
        assert(s.first() == head.first());
        assert forall|i: int| 0 <= i < s.len() implies is_digit(#[trigger] s[i]) by {
            if i < head.len() {
                assert(s[i] == head[i]);
            }
        }
    }
}

/// Zeros in front count nothing: digits that begin with `k` zeros write the
/// number that the digits after them write.
pub proof fn lemma_zeros_in_front_count_nothing(s: Seq<char>, k: int)
    requires
        0 <= k <= s.len(),
        forall|i: int| 0 <= i < k ==> #[trigger] s[i] == '0',
    ensures
        decimal_value(s) == decimal_value(s.skip(k)),
    decreases s.len(),
{
    if s.len() == 0 {
        assert(s.skip(k) =~= s);
    } else if k == s.len() {
        lemma_zeros_in_front_count_nothing(s.drop_last(), k - 1);
        assert(s.drop_last().skip(k - 1) =~= Seq::<char>::empty());
        assert(s.skip(k) =~= Seq::<char>::empty());
        assert(s.last() == '0');
    } else {
        lemma_zeros_in_front_count_nothing(s.drop_last(), k);
        assert(s.skip(k).drop_last() =~= s.drop_last().skip(k));
        assert(s.skip(k).last() == s.last());
    }
}

/// Digits that do not begin with a zero write a number above zero.
pub proof fn lemma_number_is_not_zero(s: Seq<char>)
    requires
        s.len() >= 1,
        all_digits(s),
        s.first() != '0',
    ensures
        decimal_value(s) >= 1,
    decreases s.len(),
{
    if s.len() == 1 {
        assert(s.drop_last() =~= Seq::<char>::empty());
        assert(decimal_value(s.drop_last()) == 0);
        assert(is_digit(s[0]));
        lemma_digit_is_written_back(s[0]);
    } else {
        let head = s.drop_last();
        assert(head.first() == s.first());
        assert forall|i: int| 0 <= i < head.len() implies is_digit(#[trigger] head[i]) by {
            assert(head[i] == s[i]);
        }
        lemma_number_is_not_zero(head);
    }
}

/// A number that is written plainly is written as `decimal_digits` writes
/// it: there is one plain way to write a number.
pub proof fn lemma_plain_is_written_anew(s: Seq<char>)
    requires
        is_plain(s),
    ensures
        decimal_digits(decimal_value(s)) == s,
    decreases s.len(),
{
    let head = s.drop_last();
    assert(is_digit(s[s.len() - 1]));
    lemma_digit_is_written_back(s.last());
    if s.len() == 1 {
        assert(head =~= Seq::<char>::empty());
        assert(decimal_value(head) == 0);
        assert(decimal_digits(decimal_value(s)) =~= s);
    } else {
        assert(head.first() == s.first());
        assert forall|i: int| 0 <= i < head.len() implies is_digit(#[trigger] head[i]) by {
            assert(head[i] == s[i]);
        }
        lemma_number_is_not_zero(head);
        lemma_plain_is_written_anew(head);
        let n = decimal_value(s);
        assert(n == decimal_value(head) * 10 + digit_value(s.last()));
        assert(n / 10 == decimal_value(head));
        assert(n % 10 == digit_value(s.last()));
        assert(head.push(s.last()) =~= s);
    }
}

/// Of two runs of digits of one length that agree up to a place and differ
/// there, the one with the smaller digit at that place writes the smaller
/// number.
pub proof fn lemma_first_difference_decides(a: Seq<char>, b: Seq<char>, at: int)
    requires
        a.len() == b.len(),
        all_digits(a),
        all_digits(b),
        0 <= at < a.len(),
        forall|i: int| 0 <= i < at ==> a[i] == b[i],
        digit_value(a[at]) < digit_value(b[at]),
    ensures
        decimal_value(a) < decimal_value(b),
    decreases a.len(),
{
    let last = a.len() - 1;
    assert(is_digit(a[last]) && is_digit(b[last]));
    lemma_digit_is_written_back(a[last]);
    lemma_digit_is_written_back(b[last]);
    if at == last {
        assert(a.drop_last() =~= b.drop_last());
    } else {
        let x = a.drop_last();
        let y = b.drop_last();
        assert forall|i: int| 0 <= i < x.len() implies is_digit(#[trigger] x[i]) by {
            assert(x[i] == a[i]);
        }
        assert forall|i: int| 0 <= i < y.len() implies is_digit(#[trigger] y[i]) by {
            assert(y[i] == b[i]);
        }
        assert forall|i: int| 0 <= i < at implies x[i] == y[i] by {
            assert(a[i] == b[i]);
        }
        lemma_first_difference_decides(x, y, at);
    }
}

/// Of two numbers that are written plainly, the one that takes more digits
/// is the greater.
pub proof fn lemma_longer_is_greater(a: Seq<char>, b: Seq<char>)
    requires
        is_plain(a),
        is_plain(b),
        a.len() < b.len(),
    ensures
        decimal_value(a) < decimal_value(b),
{
    let k = b.len() - a.len();
    let padded = Seq::new(k as nat, |i: int| '0') + a;
    assert forall|i: int| 0 <= i < padded.len() implies is_digit(#[trigger] padded[i]) by {
        if i >= k {
            assert(padded[i] == a[i - k]);
        }
    }
    lemma_zeros_in_front_count_nothing(padded, k);
    assert(padded.skip(k) =~= a);
    assert(is_digit(b[0]));
    lemma_digit_is_written_back(b[0]);
    lemma_first_difference_decides(padded, b, 0);
}

/// The name that is written for a number stands for that number.
pub proof fn lemma_written_name_is_read_back(n: nat)
    ensures
        folder_number(decimal_digits(n)) == Some(n),
{
    lemma_digits_write_their_number(n);
    let s = decimal_digits(n);
    assert(is_digit(s[0]));
    assert(unsigned_part(s) == s);
}

/// Zeros in front change neither the number nor that the name stands for
/// one: the two-wide form of a written number is read back as that number.
pub proof fn lemma_two_wide_is_read_back(n: nat)
    ensures
        folder_number(two_wide(decimal_digits(n))) == Some(n),
{
    lemma_digits_write_their_number(n);
    lemma_written_name_is_read_back(n);
    let s = decimal_digits(n);
    if s.len() == 1 {
        let t = seq!['0'] + s;
        assert(is_digit(s[0]));
        assert(unsigned_part(t) == t);
        assert forall|i: int| 0 <= i < t.len() implies is_digit(#[trigger] t[i]) by {
            if i == 1 {
                assert(t[i] == s[0]);
            }
        }
        lemma_zeros_in_front_count_nothing(t, 1);
        assert(t.skip(1) =~= s);
    }
}

/// Whether `c` is one of the ten decimal digits.
pub fn is_decimal_digit(c: char) -> (b: bool)
    ensures
        b == is_digit(c),
{
    '0' <= c && c <= '9'
}

/// The number that the name `name` stands for, written plainly; none where
/// the name stands for no number.
pub fn parse_folder_number(name: &str) -> (r: Option<String>)
    ensures
        match r {
            Some(written) => folder_number(name@) matches Some(n) && written@ == decimal_digits(n),
            None => folder_number(name@) is None,
        },
{
    let chars = chars_of(name);
    let n = chars.len();
    let mut negative = false;
    let mut start: usize = 0;
    if n > 0 && (chars[0] == '+' || chars[0] == '-') {
        negative = chars[0] == '-';
        start = 1;
    }
    let ghost digits = unsigned_part(name@);
    assert(digits =~= chars@.subrange(start as int, n as int));
    if start == n {
        return None;
    }
    let mut i: usize = start;
    while i < n
        invariant
            start <= i <= n == chars.len(),
            digits == unsigned_part(name@),
            digits == chars@.subrange(start as int, n as int),
            forall|k: int| start <= k < i ==> is_digit(#[trigger] chars@[k]),
        decreases n - i,
    {
        if !is_decimal_digit(chars[i]) {
            assert(!is_digit(digits[i - start]));
            return None;
        }
        i += 1;
    }
    assert(all_digits(digits)) by {
        assert forall|k: int| 0 <= k < digits.len() implies is_digit(#[trigger] digits[k]) by {
            assert(digits[k] == chars@[k + start]);
        }
    }
    let mut first: usize = start;
    while first < n && chars[first] == '0'
        invariant
            start <= first <= n == chars.len(),
            forall|k: int| start <= k < first ==> #[trigger] chars@[k] == '0',
        decreases n - first,
    {
        first += 1;
    }
    let ghost rest = chars@.subrange(first as int, n as int);
    proof {
        assert forall|k: int| 0 <= k < first - start implies #[trigger] digits[k] == '0' by {
            assert(digits[k] == chars@[k + start]);
        }
        lemma_zeros_in_front_count_nothing(digits, first - start);
        assert(digits.skip(first - start) =~= rest);
    }
    if first == n {
        let mut zero = String::new();
        zero.push('0');
        assert(zero@ =~= decimal_digits(0));
        return Some(zero);
    }
    proof {
        assert forall|k: int| 0 <= k < rest.len() implies is_digit(#[trigger] rest[k]) by {
            assert(rest[k] == chars@[k + first]);
        }
        assert(rest.first() == chars@[first as int]);
        lemma_number_is_not_zero(rest);
        lemma_plain_is_written_anew(rest);
    }
    if negative {
        return None;
    }
    Some(string_from(&chars, first, n))
}

/// Whether the number that `a` writes is greater than the one that `b`
/// writes, both written plainly. The longer is the greater; of two of one
/// length, the one with the greater digit where they first differ.
pub(crate) fn digits_exceed(a: &str, b: &str) -> (r: bool)
    requires
        is_plain(a@),
        is_plain(b@),
    ensures
        r == (decimal_value(a@) > decimal_value(b@)),
{
    let x = chars_of(a);
    let y = chars_of(b);
    if x.len() != y.len() {
        proof {
            if x.len() < y.len() {
                lemma_longer_is_greater(a@, b@);
            } else {
                lemma_longer_is_greater(b@, a@);
            }
        }
        return x.len() > y.len();
    }
    let mut i: usize = 0;
    while i < x.len()
        invariant
            i <= x.len() == y.len(),
            x@ == a@,
            y@ == b@,
            is_plain(a@),
            is_plain(b@),
            forall|k: int| 0 <= k < i ==> x@[k] == y@[k],
        decreases x.len() - i,
    {
        if x[i] != y[i] {
            proof {
                assert(is_digit(x@[i as int]) && is_digit(y@[i as int]));
                if x@[i as int] < y@[i as int] {
                    lemma_first_difference_decides(a@, b@, i as int);
                } else {
                    lemma_first_difference_decides(b@, a@, i as int);
                }
            }
            return x[i] > y[i];
        }
        i += 1;
    }
    assert(a@ =~= b@);
    false
}

} // verus!
