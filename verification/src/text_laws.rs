//! What searching, reading and writing texts mean, in terms of concatenation and of place values.

use vstd::arithmetic::power::*;
use vstd::prelude::*;

use crate::error::shape_entries;
use crate::error::shape_text;
use crate::error::EvokeFault;
use crate::text::all_digits;
use crate::text::comma_joined;
use crate::text::contains_text;
use crate::text::decimal;
use crate::text::decimal_is_digits;
use crate::text::decimal_round_trip;
use crate::text::digit_char;
use crate::text::digits_value;
use crate::text::first_occurrence;
use crate::text::first_occurrence_holds;
use crate::text::is_digit;
use crate::text::occurs_at;
use crate::text::parsed_usize;

verus! {

/// Whether `s` is `before`, then `middle`, then `after`.
pub open spec fn is_made_of(
    s: Seq<char>,
    before: Seq<char>,
    middle: Seq<char>,
    after: Seq<char>,
) -> bool {
    s == before + middle + after
}

/// A pattern that is framed by two texts stands behind the first of them.
proof fn framed_pattern_occurs(
    s: Seq<char>,
    before: Seq<char>,
    pattern: Seq<char>,
    after: Seq<char>,
)
    requires
        is_made_of(s, before, pattern, after),
    ensures
        occurs_at(s, pattern, before.len() as int),
{
    assert(s.subrange(before.len() as int, (before.len() + pattern.len()) as int) =~= pattern);
}

/// A pattern that stands somewhere is framed by what comes before and after it.
proof fn occurring_pattern_is_framed(s: Seq<char>, pattern: Seq<char>, i: int)
    requires
        occurs_at(s, pattern, i),
    ensures
        is_made_of(s, s.take(i), pattern, s.skip(i + pattern.len())),
{
    assert(s =~= s.take(i) + s.subrange(i, i + pattern.len()) + s.skip(i + pattern.len()));
}

/// A text contains a pattern exactly if it can be parted into something, the pattern, and
/// something else.
pub proof fn containing_is_being_framed(s: Seq<char>, pattern: Seq<char>)
    ensures
        contains_text(s, pattern) <==> exists|before: Seq<char>, after: Seq<char>|
            is_made_of(s, before, pattern, after),
{
    if contains_text(s, pattern) {
        let i = choose|i: int| occurs_at(s, pattern, i);
        occurring_pattern_is_framed(s, pattern, i);
    }
    if exists|before: Seq<char>, after: Seq<char>| is_made_of(s, before, pattern, after) {
        let (before, after) = choose|before: Seq<char>, after: Seq<char>|
            is_made_of(s, before, pattern, after);
        framed_pattern_occurs(s, before, pattern, after);
    }
}

/// The first position of a pattern is the length of the shortest text that can stand before it;
/// there is none exactly if the text cannot be parted around the pattern.
pub proof fn first_occurrence_is_shortest_front(s: Seq<char>, pattern: Seq<char>)
    ensures
        match first_occurrence(s, pattern) {
            None => forall|before: Seq<char>, after: Seq<char>|
                !is_made_of(s, before, pattern, after),
            Some(i) => {
                &&& 0 <= i <= s.len() - pattern.len()
                &&& is_made_of(s, s.take(i), pattern, s.skip(i + pattern.len()))
                &&& forall|before: Seq<char>, after: Seq<char>|
                    is_made_of(s, before, pattern, after) ==> i <= before.len()
            },
        },
{
    containing_is_being_framed(s, pattern);
    match first_occurrence(s, pattern) {
        None => {},
        Some(i) => {
            first_occurrence_holds(s, pattern, i);
            occurring_pattern_is_framed(s, pattern, i);
            assert forall|before: Seq<char>, after: Seq<char>|
                is_made_of(s, before, pattern, after) implies i <= before.len() by {
                framed_pattern_occurs(s, before, pattern, after);
            }
        },
    }
}

/// The first digit of a numeral counts for the power of ten that its place gives it.
pub proof fn first_digit_counts_by_its_place(c: char, s: Seq<char>)
    requires
        '0' <= c <= '9',
        forall|i: int| 0 <= i < s.len() ==> '0' <= #[trigger] s[i] <= '9',
    ensures
        digits_value(Seq::empty()) == 0,
        digits_value(seq![c] + s) == (c as int - 48) * pow(10, s.len()) + digits_value(s),
    decreases s.len(),
{
    let whole = seq![c] + s;
    if s.len() == 0 {
        assert(whole.drop_last() =~= Seq::<char>::empty());
        assert(digits_value(whole.drop_last()) == 0);
        lemma_pow0(10);
    } else {
        let front = s.drop_last();
        first_digit_counts_by_its_place(c, front);
        assert(whole.drop_last() =~= seq![c] + front);
        assert(whole.last() == s.last());
        let d = c as int - 48;
        let p = pow(10, front.len());
        lemma_pow_adds(10, front.len(), 1);
        lemma_pow1(10);
        assert(pow(10, s.len()) == p * 10);
        assert((d * p) * 10 == d * (p * 10)) by (nonlinear_arith);
        assert((d * p + digits_value(front)) * 10 == (d * p) * 10 + digits_value(front) * 10);
    }
}

/// A numeral consists of digits, does not start with a zero unless it is a single one, and denotes
/// its number; no other text of that kind denotes the number.
pub proof fn numeral_is_the_only_one(n: nat, s: Seq<char>)
    ensures
        decimal(n).len() > 0,
        forall|i: int| 0 <= i < decimal(n).len() ==> '0' <= #[trigger] decimal(n)[i] <= '9',
        n > 0 ==> decimal(n)[0] != '0',
        digits_value(decimal(n)) == n,
        s.len() > 0 && (forall|i: int| 0 <= i < s.len() ==> '0' <= #[trigger] s[i] <= '9')
            && digits_value(s) == n && (s[0] != '0' || s.len() == 1) ==> s == decimal(n),
{
    decimal_is_digits(n);
    decimal_round_trip(n);
    numeral_has_no_leading_zero(n);
    if s.len() > 0 && (forall|i: int| 0 <= i < s.len() ==> '0' <= #[trigger] s[i] <= '9')
        && digits_value(s) == n && (s[0] != '0' || s.len() == 1) {
        let k = numeral_behind_zeros(s);
        if k > 0 {
            assert(s[0] == '0');
            assert(s.len() == k + decimal(n).len());
        }
        assert(s =~= decimal(n));
    }
}

/// A numeral of a positive number starts with another digit than zero.
proof fn numeral_has_no_leading_zero(n: nat)
    ensures
        n > 0 ==> decimal(n)[0] != '0',
    decreases n,
{
    if n >= 10 {
        numeral_has_no_leading_zero(n / 10);
        decimal_is_digits(n / 10);
        assert(decimal(n)[0] == decimal(n / 10)[0]);
    }
}

/// The text of `k` zeros.
pub open spec fn zeros(k: nat) -> Seq<char> {
    Seq::new(k, |i: int| '0')
}

/// Digits are some zeros and then the numeral of what they denote.
proof fn numeral_behind_zeros(s: Seq<char>) -> (k: nat)
    requires
        all_digits(s),
    ensures
        s == zeros(k) + decimal(digits_value(s)),
    decreases s.len(),
{
    let front = s.drop_last();
    let d = (s.last() as int - 48) as nat;
    assert(is_digit(s.last()));
    if front.len() == 0 {
        assert(digits_value(front) == 0);
        assert(s =~= zeros(0) + decimal(digits_value(s)));
        0
    } else {
        assert forall|i: int| 0 <= i < front.len() implies is_digit(#[trigger] front[i]) by {
            assert(front[i] == s[i]);
        }
        let k = numeral_behind_zeros(front);
        let v = digits_value(front);
        assert(s =~= front.push(digit_char(d)));
        assert(digits_value(s) == v * 10 + d);
        if v == 0 {
            assert(decimal(v) =~= seq!['0']);
            assert(decimal(digits_value(s)) =~= seq![digit_char(d)]);
            assert(front =~= zeros((k + 1) as nat));
            assert(s =~= zeros((k + 1) as nat) + decimal(digits_value(s)));
            k + 1
        } else {
            assert(digits_value(s) / 10 == v && digits_value(s) % 10 == d);
            assert(decimal(digits_value(s)) =~= decimal(v).push(digit_char(d)));
            assert(s =~= zeros(k) + decimal(digits_value(s)));
            k
        }
    }
}

/// Whether a text is an optional plus sign, `k` zeros and the numeral of `n`.
pub open spec fn spells(s: Seq<char>, n: nat, plus: bool, k: nat) -> bool {
    s == (if plus {
        seq!['+']
    } else {
        Seq::empty()
    }) + zeros(k) + decimal(n)
}

/// Zeros before a numeral do not change what it denotes.
proof fn zeros_count_for_nothing(k: nat, n: nat)
    ensures
        all_digits(zeros(k) + decimal(n)),
        digits_value(zeros(k) + decimal(n)) == n,
    decreases k,
{
    decimal_is_digits(n);
    decimal_round_trip(n);
    let s = zeros(k) + decimal(n);
    assert forall|i: int| 0 <= i < s.len() implies is_digit(#[trigger] s[i]) by {
        if i >= k {
            assert(s[i] == decimal(n)[i - k]);
        }
    }
    if k == 0 {
        assert(s =~= decimal(n));
    } else {
        let m = (k - 1) as nat;
        zeros_count_for_nothing(m, n);
        let rest = zeros(m) + decimal(n);
        assert(s =~= seq!['0'] + rest);
        assert forall|i: int| 0 <= i < rest.len() implies '0' <= #[trigger] rest[i] <= '9' by {
            assert(is_digit(rest[i]));
        }
        first_digit_counts_by_its_place('0', rest);
        assert(0 * pow(10, rest.len()) == 0);
    }
}

/// A text is read as a number exactly if it is an optional plus sign, zeros, and the numeral of
/// that number.
pub proof fn reading_undoes_writing(s: Seq<char>, n: usize)
    ensures
        parsed_usize(s) == Some(n) <==> exists|plus: bool, k: nat| spells(s, n as nat, plus, k),
        parsed_usize(decimal(n as nat)) == Some(n),
{
    if parsed_usize(s) == Some(n) {
        let plus = s.len() > 0 && s[0] == '+';
        let digits = if plus {
            s.drop_first()
        } else {
            s
        };
        let k = numeral_behind_zeros(digits);
        if plus {
            assert(s =~= seq!['+'] + digits);
            assert(s =~= seq!['+'] + zeros(k) + decimal(n as nat));
        } else {
            assert(s =~= Seq::<char>::empty() + zeros(k) + decimal(n as nat));
        }
        assert(spells(s, n as nat, plus, k));
    }
    if exists|plus: bool, k: nat| spells(s, n as nat, plus, k) {
        let (plus, k) = choose|plus: bool, k: nat| spells(s, n as nat, plus, k);
        zeros_count_for_nothing(k, n as nat);
        let digits = zeros(k) + decimal(n as nat);
        if plus {
            assert(s[0] == '+');
            assert(s.drop_first() =~= digits);
        } else {
            assert(s =~= digits);
            assert(is_digit(s[0]));
        }
    }
    zeros_count_for_nothing(0, n as nat);
    assert(zeros(0) + decimal(n as nat) =~= decimal(n as nat));
    assert(is_digit(decimal(n as nat)[0]));
}

/// Joining by commas is putting a comma between two joined lists; one text alone stays as it is,
/// and none give none.
pub proof fn joined_lists_are_joined_by_a_comma(a: Seq<Seq<char>>, b: Seq<Seq<char>>)
    ensures
        a.len() == 0 ==> comma_joined(a) == Seq::<char>::empty(),
        a.len() == 1 ==> comma_joined(a) == a[0],
        a.len() > 0 && b.len() > 0 ==> comma_joined(a + b) == comma_joined(a) + ","@
            + comma_joined(b),
    decreases a.len(),
{
    if a.len() > 0 && b.len() > 0 {
        assert((a + b).drop_first() =~= a.drop_first() + b);
        if a.len() == 1 {
            assert(a.drop_first() + b =~= b);
        } else {
            joined_lists_are_joined_by_a_comma(a.drop_first(), b);
            assert(a[0] + ","@ + (comma_joined(a.drop_first()) + ","@ + comma_joined(b))
                =~= comma_joined(a) + ","@ + comma_joined(b));
        }
    }
}

/// A shape is shown in square brackets: its entries as numerals, a comma and a blank between each
/// two.
pub proof fn shapes_are_listed_in_brackets(a: Seq<usize>, b: Seq<usize>)
    ensures
        shape_text(a) == "["@ + shape_entries(a) + "]"@,
        a.len() == 0 ==> shape_entries(a) == Seq::<char>::empty(),
        a.len() == 1 ==> shape_entries(a) == decimal(a[0] as nat),
        a.len() > 0 && b.len() > 0 ==> shape_entries(a + b) == shape_entries(a) + ", "@
            + shape_entries(b),
    decreases b.len(),
{
    if a.len() > 0 && b.len() > 0 {
        assert((a + b).drop_last() =~= a + b.drop_last());
        if b.len() == 1 {
            assert(a + b.drop_last() =~= a);
        } else {
            shapes_are_listed_in_brackets(a, b.drop_last());
            assert(shape_entries(a) + ", "@ + shape_entries(b.drop_last()) + ", "@ + decimal(
                b.last() as nat,
            ) =~= shape_entries(a) + ", "@ + shape_entries(b));
        }
    }
}

/// Every error is described by what kind it is and by all that it carries.
pub proof fn errors_are_described_in_full(
    m: Seq<char>,
    key: Seq<char>,
    expected: Seq<usize>,
    got: Seq<usize>,
)
    ensures
        EvokeFault::Config(m).message() == "config error: "@ + m,
        (EvokeFault::ShapeMismatch { key, expected, got }).message() == "shape mismatch for "@
            + key + ": expected "@ + shape_text(expected) + ", got "@ + shape_text(got),
        (EvokeFault::Shard { shard: key, msg: m }).message() == "shard error "@ + key + ": "@ + m,
        EvokeFault::Seal(m).message() == "seal violation: "@ + m,
        EvokeFault::Backend(m).message() == "backend error: "@ + m,
        EvokeFault::Io(m).message() == "io error: "@ + m,
{
}

} // verus!
