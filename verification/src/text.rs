//! Text helpers: character buffers, searching, and decimal numerals.
//!
//! Strings are specified by their sequence of characters, so every message and every key that
//! the library builds has an exact meaning.

use vstd::prelude::*;
use vstd::string::StringExecFns;
use vstd::utf8::encode_utf8;
use vstd::utf8::encode_utf8_decode_utf8;

verus! {

/// `String::push` of the standard library: appends one character to the end of the string.
pub assume_specification[ String::push ](s: &mut String, c: char)
    ensures
        final(s)@ == old(s)@.push(c),
;

/// The characters of `s`, in order.
pub fn chars_of(s: &str) -> (out: Vec<char>)
    ensures
        out@ == s@,
{
    let mut out: Vec<char> = Vec::new();
    for c in it: s.chars()
        invariant
            it.seq() == s@,
            out@ == it.seq().take(it.index() as int),
    {
        out.push(c);
    }
    out
}

/// Whether two strings hold the same characters.
pub fn same_text(a: &str, b: &str) -> (same: bool)
    ensures
        same == (a@ == b@),
{
    let x: &[u8] = a.as_bytes();
    let y: &[u8] = b.as_bytes();
    proof {
        encode_utf8_decode_utf8(a@);
        encode_utf8_decode_utf8(b@);
    }
    if x.len() != y.len() {
        return false;
    }
    let mut i: usize = 0;
    while i < x.len()
        invariant
            i <= x@.len(),
            x@.len() == y@.len(),
            x@ == encode_utf8(a@),
            y@ == encode_utf8(b@),
            forall|j: int| 0 <= j < i ==> x@[j] == y@[j],
        decreases x@.len() - i,
    {
        if x[i] != y[i] {
            return false;
        }
        i += 1;
    }
    proof {
        assert(x@ =~= y@);
    }
    true
}

/// Concatenation of two pieces of text.
pub fn join2(a: &str, b: &str) -> (out: String)
    ensures
        out@ == a@ + b@,
{
    let mut out: String = a.to_owned();
    out.append(b);
    out
}

/// The character of the decimal digit `d`.
pub open spec fn digit_char(d: nat) -> char {
    (48 + d) as char
}

/// Whether `c` is one of the ASCII digits.
pub open spec fn is_digit(c: char) -> bool {
    '0' <= c <= '9'
}

/// The decimal numeral of `n`, without leading zeros.
pub open spec fn decimal(n: nat) -> Seq<char>
    decreases n,
{
    if n < 10 {
        seq![digit_char(n)]
    } else {
        decimal(n / 10).push(digit_char(n % 10))
    }
}

/// Appends the decimal numeral of `n`.
pub fn push_decimal(out: &mut String, n: u128)
    ensures
        final(out)@ == old(out)@ + decimal(n as nat),
    decreases n,
{
    if n >= 10 {
        push_decimal(out, n / 10);
    }
    let d: u8 = (n % 10) as u8;
    out.push((48 + d) as char);
}

/// The number that a sequence of digits denotes.
pub open spec fn digits_value(s: Seq<char>) -> nat
    decreases s.len(),
{
    if s.len() == 0 {
        0
    } else {
        digits_value(s.drop_last()) * 10 + (s.last() as int - 48) as nat
    }
}

/// Whether `s` is a non-empty sequence of ASCII digits.
pub open spec fn all_digits(s: Seq<char>) -> bool {
    s.len() > 0 && forall|i: int| 0 <= i < s.len() ==> is_digit(#[trigger] s[i])
}

/// Every numeral consists of digits only.
pub proof fn decimal_is_digits(n: nat)
    ensures
        all_digits(decimal(n)),
    decreases n,
{
    if n >= 10 {
        decimal_is_digits(n / 10);
    }
}

/// Reading back the numeral of `n` gives `n`.
pub proof fn decimal_round_trip(n: nat)
    ensures
        digits_value(decimal(n)) == n,
    decreases n,
{
    if n < 10 {
        let s = decimal(n);
        assert(s.drop_last() =~= Seq::<char>::empty());
        assert(digits_value(s.drop_last()) == 0);
    } else {
        decimal_round_trip(n / 10);
        assert(decimal(n).drop_last() =~= decimal(n / 10));
    }
}

/// The text without one leading plus sign, if it has one.
pub open spec fn without_plus(s: Seq<char>) -> Seq<char> {
    if s.len() > 0 && s[0] == '+' {
        s.drop_first()
    } else {
        s
    }
}

/// The unsigned number that `s` spells: digits, after at most one plus sign, whose value is a
/// `usize`.
pub open spec fn parsed_usize(s: Seq<char>) -> Option<usize> {
    let digits = without_plus(s);
    if all_digits(digits) && digits_value(digits) <= usize::MAX {
        Some(digits_value(digits) as usize)
    } else {
        None
    }
}

/// A longer numeral never denotes a smaller number.
proof fn digits_value_grows(s: Seq<char>, i: int)
    requires
        0 <= i <= s.len(),
        forall|j: int| 0 <= j < s.len() ==> is_digit(#[trigger] s[j]),
    ensures
        digits_value(s.take(i)) <= digits_value(s),
    decreases s.len() - i,
{
    if i < s.len() {
        assert(s.take(i + 1).drop_last() =~= s.take(i));
        assert(is_digit(s.take(i + 1).last()));
        digits_value_grows(s, i + 1);
    } else {
        assert(s.take(i) =~= s);
    }
}

/// Reads `s[from..to]` as an unsigned number.
pub fn parse_usize(s: &Vec<char>, from: usize, to: usize) -> (parsed: Option<usize>)
    requires
        from <= to <= s@.len(),
    ensures
        parsed == parsed_usize(s@.subrange(from as int, to as int)),
{
    let ghost whole = s@.subrange(from as int, to as int);
    let ghost digits = without_plus(whole);
    let start: usize = if from < to && s[from] == '+' { from + 1 } else { from };
    proof {
        assert(digits =~= s@.subrange(start as int, to as int));
    }
    if start == to {
        return None;
    }
    let mut value: usize = 0;
    let mut i: usize = start;
    proof {
        assert(digits.take(0) =~= Seq::<char>::empty());
    }
    while i < to
        invariant
            start <= i <= to <= s@.len(),
            digits == s@.subrange(start as int, to as int),
            digits == without_plus(whole),
            whole == s@.subrange(from as int, to as int),
            forall|j: int| 0 <= j < i - start ==> is_digit(#[trigger] digits[j]),
            value == digits_value(digits.take(i - start)),
        decreases to - i,
    {
        let c: char = s[i];
        proof {
            assert(c == digits[i - start]);
            assert(digits.take(i - start + 1).drop_last() =~= digits.take(i - start));
        }
        if !('0' <= c && c <= '9') {
            return None;
        }
        let d: usize = (c as u32 - 48) as usize;
        let wide: u128 = value as u128 * 10 + d as u128;
        if wide > usize::MAX as u128 {
            proof {
                if all_digits(digits) {
                    digits_value_grows(digits, i - start + 1);
                }
            }
            return None;
        }
        value = wide as usize;
        i += 1;
    }
    proof {
        assert(digits.take(to - start) =~= digits);
    }
    Some(value)
}

/// Whether `pattern` stands in `s` at position `i`.
pub open spec fn occurs_at(s: Seq<char>, pattern: Seq<char>, i: int) -> bool {
    0 <= i && i + pattern.len() <= s.len() && s.subrange(i, i + pattern.len()) == pattern
}

/// Whether `pattern` stands anywhere in `s`.
pub open spec fn contains_text(s: Seq<char>, pattern: Seq<char>) -> bool {
    exists|i: int| occurs_at(s, pattern, i)
}

/// Whether `i` is the first position at which `pattern` stands in `s`.
pub open spec fn is_first_occurrence(s: Seq<char>, pattern: Seq<char>, i: int) -> bool {
    occurs_at(s, pattern, i) && forall|j: int| 0 <= j < i ==> !occurs_at(s, pattern, j)
}

/// The first position at which `pattern` stands in `s`, if it stands there at all.
pub open spec fn first_occurrence(s: Seq<char>, pattern: Seq<char>) -> Option<int> {
    if contains_text(s, pattern) {
        Some(choose|i: int| is_first_occurrence(s, pattern, i))
    } else {
        None
    }
}

/// There is only one first position.
pub proof fn first_occurrence_is_unique(s: Seq<char>, pattern: Seq<char>, i: int)
    requires
        is_first_occurrence(s, pattern, i),
    ensures
        first_occurrence(s, pattern) == Some(i),
{
    let j = choose|j: int| is_first_occurrence(s, pattern, j);
    assert(is_first_occurrence(s, pattern, j));
    if i < j {
        assert(!occurs_at(s, pattern, i));
    } else if j < i {
        assert(!occurs_at(s, pattern, j));
    }
}

/// Where the first position is known, the pattern stands there.
pub proof fn first_occurrence_holds(s: Seq<char>, pattern: Seq<char>, i: int)
    requires
        first_occurrence(s, pattern) == Some(i),
    ensures
        is_first_occurrence(s, pattern, i),
{
    let k = choose|k: int| occurs_at(s, pattern, k);
    first_position_exists(s, pattern, k);
}

/// A pattern that stands somewhere stands somewhere first.
proof fn first_position_exists(s: Seq<char>, pattern: Seq<char>, k: int)
    requires
        occurs_at(s, pattern, k),
    ensures
        exists|i: int| is_first_occurrence(s, pattern, i),
    decreases k,
{
    if exists|j: int| 0 <= j < k && occurs_at(s, pattern, j) {
        let j = choose|j: int| 0 <= j < k && occurs_at(s, pattern, j);
        first_position_exists(s, pattern, j);
    } else {
        assert(is_first_occurrence(s, pattern, k));
    }
}

/// Whether `pattern` stands in `s` at position `i`.
fn stands_at(s: &Vec<char>, pattern: &Vec<char>, i: usize) -> (yes: bool)
    ensures
        yes == occurs_at(s@, pattern@, i as int),
{
    if i > s.len() || pattern.len() > s.len() - i {
        return false;
    }
    let mut k: usize = 0;
    while k < pattern.len()
        invariant
            k <= pattern@.len(),
            i + pattern.len() <= s.len(),
            forall|j: int| 0 <= j < k ==> s@[i + j] == pattern@[j],
        decreases pattern@.len() - k,
    {
        if s[i + k] != pattern[k] {
            proof {
                assert(s@.subrange(i as int, i + pattern@.len())[k as int] != pattern@[k as int]);
            }
            return false;
        }
        k += 1;
    }
    proof {
        assert(s@.subrange(i as int, i + pattern@.len()) =~= pattern@);
    }
    true
}

/// The first position at or behind `from` at which `pattern` stands in `s`, counted from
/// `from`.
pub fn find_text(s: &Vec<char>, from: usize, pattern: &str) -> (found: Option<usize>)
    requires
        from <= s@.len(),
    ensures
        match found {
            Some(i) => first_occurrence(s@.skip(from as int), pattern@) == Some(i as int),
            None => first_occurrence(s@.skip(from as int), pattern@) is None,
        },
{
    let p: Vec<char> = chars_of(pattern);
    let ghost rest = s@.skip(from as int);
    let mut i: usize = from;
    loop
        invariant
            from <= i <= s@.len(),
            p@ == pattern@,
            rest == s@.skip(from as int),
            forall|j: int| 0 <= j < i - from ==> !occurs_at(rest, p@, j),
        decreases s@.len() - i,
    {
        let here: bool = stands_at(s, &p, i);
        proof {
            if i + p@.len() <= s@.len() {
                assert(s@.subrange(i as int, i + p@.len()) =~= rest.subrange(
                    i - from,
                    i - from + p@.len(),
                ));
            }
            assert(here == occurs_at(rest, p@, i - from));
        }
        if here {
            proof {
                first_occurrence_is_unique(rest, p@, i - from);
            }
            return Some(i - from);
        }
        if i == s.len() {
            return None;
        }
        i += 1;
    }
}

/// Whether `pattern` stands anywhere in `s`.
pub fn has_text(s: &Vec<char>, pattern: &str) -> (has: bool)
    ensures
        has == contains_text(s@, pattern@),
{
    assert(s@.skip(0) =~= s@);
    find_text(s, 0, pattern).is_some()
}

/// Texts with a comma between each two.
pub open spec fn comma_joined(parts: Seq<Seq<char>>) -> Seq<char>
    decreases parts.len(),
{
    if parts.len() == 0 {
        Seq::empty()
    } else if parts.len() == 1 {
        parts[0]
    } else {
        parts[0] + ","@ + comma_joined(parts.drop_first())
    }
}

/// One more text is set off by a comma, unless it is the first.
pub proof fn comma_joined_push(parts: Seq<Seq<char>>, last: Seq<char>)
    ensures
        comma_joined(parts.push(last)) == if parts.len() == 0 {
            last
        } else {
            comma_joined(parts) + ","@ + last
        },
    decreases parts.len(),
{
    if parts.len() > 0 {
        assert(parts.push(last).drop_first() =~= parts.drop_first().push(last));
        comma_joined_push(parts.drop_first(), last);
        if parts.len() > 1 {
            assert(parts[0] + ","@ + (comma_joined(parts.drop_first()) + ","@ + last)
                =~= comma_joined(parts) + ","@ + last);
        }
    }
}

} // verus!
