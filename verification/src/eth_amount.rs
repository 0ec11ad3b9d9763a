//! Amounts of ETH as a configuration writes them, and the wei that they come to.
use vstd::arithmetic::div_mod::{
    lemma_basic_div, lemma_div_denominator, lemma_div_is_ordered, lemma_div_multiples_vanish,
    lemma_div_pos_is_pos, lemma_fundamental_div_mod_converse,
};
use vstd::arithmetic::power::{lemma_pow_adds, lemma_pow_increases, lemma_pow_positive, pow};
use vstd::prelude::*;

use crate::primitives::U256;

verus! {

/// Whether every character is a decimal digit.
pub open spec fn are_digits(text: Seq<u8>) -> bool {
    forall|i: int| 0 <= i < text.len() ==> '0' as u8 <= #[trigger] text[i] <= '9' as u8
}

/// The number that decimal digits stand for.
pub open spec fn digits_value(digits: Seq<u8>) -> nat
    decreases digits.len(),
{
    if digits.len() == 0 {
        0
    } else {
        (digits_value(digits.drop_last()) * 10 + (digits.last() - '0' as u8)) as nat
    }
}

/// The text with small letters in place of capitals.
pub open spec fn lower_case(text: Seq<u8>) -> Seq<u8> {
    text.map_values(
        |c: u8|
            if 'A' as u8 <= c <= 'Z' as u8 {
                (c + 32) as u8
            } else {
                c
            },
    )
}

/// The first place of a character: the end where it does not occur.
pub open spec fn place_of(text: Seq<u8>, c: u8) -> int {
    match text.index_of_first(c) {
        Some(i) => i,
        None => text.len() as int,
    }
}

/// What comes before the first place of a character.
pub open spec fn before(text: Seq<u8>, c: u8) -> Seq<u8> {
    text.take(place_of(text, c))
}

/// What comes after the first place of a character: nothing where it does not occur.
pub open spec fn after(text: Seq<u8>, c: u8) -> Seq<u8> {
    if place_of(text, c) < text.len() {
        text.skip(place_of(text, c) + 1)
    } else {
        seq![]
    }
}

/// Whether a text begins with a sign.
pub open spec fn has_sign(text: Seq<u8>) -> bool {
    text.len() > 0 && (text[0] == '+' as u8 || text[0] == '-' as u8)
}

/// Whether a text begins with a minus.
pub open spec fn is_negative(text: Seq<u8>) -> bool {
    text.len() > 0 && text[0] == '-' as u8
}

/// The text without its sign.
pub open spec fn unsigned(text: Seq<u8>) -> Seq<u8> {
    if has_sign(text) {
        text.skip(1)
    } else {
        text
    }
}

/// Whether a text is a decimal number without a sign: digits with at most one point among them.
pub open spec fn is_decimal(text: Seq<u8>) -> bool {
    &&& are_digits(before(text, '.' as u8))
    &&& are_digits(after(text, '.' as u8))
    &&& before(text, '.' as u8).len() + after(text, '.' as u8).len() > 0
}

/// Whether a text is a whole number, with a sign or without.
pub open spec fn is_integer(text: Seq<u8>) -> bool {
    unsigned(text).len() > 0 && are_digits(unsigned(text))
}

/// The whole number that a text stands for.
pub open spec fn integer_value(text: Seq<u8>) -> int {
    if is_negative(text) {
        -digits_value(unsigned(text))
    } else {
        digits_value(unsigned(text)) as int
    }
}

/// Whether a text, without its sign, is a number: a decimal number, and after it, where there is an
/// `e`, a whole number as the exponent.
pub open spec fn is_number(text: Seq<u8>) -> bool {
    &&& is_decimal(before(text, 'e' as u8))
    &&& place_of(text, 'e' as u8) < text.len() ==> is_integer(after(text, 'e' as u8))
}

/// An amount.
pub enum Amount {
    /// The number that `digits` stand for, times ten to the power of `scale`, or that below zero.
    Number { negative: bool, digits: Seq<u8>, scale: int },
    Infinite { negative: bool },
    NotANumber,
}

/// The number that a text without a sign stands for: its digits, the point left out, with the
/// exponent, less a place for each digit after the point, as their scale.
pub open spec fn number_of(negative: bool, text: Seq<u8>) -> Amount {
    let whole = before(before(text, 'e' as u8), '.' as u8);
    let fraction = after(before(text, 'e' as u8), '.' as u8);
    let exponent = if place_of(text, 'e' as u8) < text.len() {
        integer_value(after(text, 'e' as u8))
    } else {
        0
    };
    Amount::Number { negative, digits: whole + fraction, scale: exponent - fraction.len() }
}

/// The letters of `inf`.
pub open spec fn inf() -> Seq<u8> {
    seq![0x69, 0x6e, 0x66]
}

/// The letters of `infinity`.
pub open spec fn infinity() -> Seq<u8> {
    seq![0x69, 0x6e, 0x66, 0x69, 0x6e, 0x69, 0x74, 0x79]
}

/// The letters of `nan`.
pub open spec fn nan() -> Seq<u8> {
    seq![0x6e, 0x61, 0x6e]
}

/// The amount that a text in small letters stands for, if it stands for one.
pub open spec fn lower_case_amount(text: Seq<u8>) -> Option<Amount> {
    let negative = is_negative(text);
    if unsigned(text) == inf() || unsigned(text) == infinity() {
        Some(Amount::Infinite { negative })
    } else if unsigned(text) == nan() {
        Some(Amount::NotANumber)
    } else if is_number(unsigned(text)) {
        Some(number_of(negative, unsigned(text)))
    } else {
        None
    }
}

/// The amount that a text stands for, if it stands for one.
pub open spec fn amount_of(text: Seq<u8>) -> Option<Amount> {
    lower_case_amount(lower_case(text))
}

/// The whole part of a number times ten to the power of `shift`.
pub open spec fn shifted(n: nat, shift: int) -> nat {
    if shift >= 0 {
        (n * pow(10, shift as nat)) as nat
    } else {
        (n as int / pow(10, (-shift) as nat)) as nat
    }
}

/// A number, or the largest of 128 bits if that is lower.
pub open spec fn at_most_u128(n: nat) -> u128 {
    if n <= u128::MAX {
        n as u128
    } else {
        u128::MAX
    }
}

/// The wei that an amount of ETH comes to. What is less than a wei is left out, what is below zero
/// counts as zero, and what is more than 128 bits hold counts as the largest that they hold.
pub open spec fn wei_in(amount: Amount) -> u128 {
    match amount {
        Amount::Number { negative, digits, scale } => if negative {
            0
        } else {
            at_most_u128(shifted(digits_value(digits), scale + 18))
        },
        Amount::Infinite { negative } => if negative {
            0
        } else {
            u128::MAX
        },
        Amount::NotANumber => 0,
    }
}

/// One more digit of a number that stops at the largest of 128 bits.
fn with_digit(value: u128, digit: u8, Ghost(digits): Ghost<Seq<u8>>) -> (r: u128)
    requires
        '0' as u8 <= digit <= '9' as u8,
        value == at_most_u128(digits_value(digits)),
    ensures
        r == at_most_u128(digits_value(digits.push(digit))),
{
    let d: u128 = (digit - 48) as u128;
    assert(digits.push(digit).drop_last() =~= digits);
    if value > (u128::MAX - d) / 10 {
        u128::MAX
    } else {
        value * 10 + d
    }
}

/// The number that the first `n` digits stand for, or the largest of 128 bits if that is lower.
fn value_of(digits: &Vec<u8>, n: usize) -> (value: u128)
    requires
        are_digits(digits@),
        n <= digits@.len(),
    ensures
        value == at_most_u128(digits_value(digits@.take(n as int))),
{
    let mut value: u128 = 0;
    let mut i: usize = 0;
    assert(digits@.take(0).len() == 0);
    while i < n
        invariant
            i <= n <= digits@.len(),
            are_digits(digits@),
            value == at_most_u128(digits_value(digits@.take(i as int))),
        decreases n - i,
    {
        assert(digits@.take(i + 1) =~= digits@.take(i as int).push(digits@[i as int]));
        value = with_digit(value, digits[i], Ghost(digits@.take(i as int)));
        i = i + 1;
    }
    value
}

/// The characters from `from` up to `to`, exclusive.
fn part(text: &Vec<u8>, from: usize, to: usize) -> (r: Vec<u8>)
    requires
        from <= to <= text@.len(),
    ensures
        r@ == text@.subrange(from as int, to as int),
{
    let mut r: Vec<u8> = Vec::new();
    let mut i: usize = from;
    while i < to
        invariant
            from <= i <= to <= text@.len(),
            r@ =~= text@.subrange(from as int, i as int),
        decreases to - i,
    {
        r.push(text[i]);
        i = i + 1;
    }
    r
}

/// The first place of a character, or the end.
fn find(text: &Vec<u8>, c: u8) -> (place: usize)
    ensures
        place == place_of(text@, c),
        place <= text@.len(),
{
    proof {
        text@.index_of_first_ensures(c);
    }
    let mut i: usize = 0;
    while i < text.len() && text[i] != c
        invariant
            i <= place_of(text@, c) <= text@.len(),
            place_of(text@, c) < text@.len() ==> text@[place_of(text@, c)] == c,
        decreases text@.len() - i,
    {
        i = i + 1;
    }
    assert(i < place_of(text@, c) ==> text@[i as int] != c);
    i
}

/// What comes before and after the first place of a character, and whether it occurs.
fn split(text: &Vec<u8>, c: u8) -> (r: (Vec<u8>, Vec<u8>, bool))
    ensures
        r.0@ == before(text@, c),
        r.1@ == after(text@, c),
        r.2 == (place_of(text@, c) < text@.len()),
{
    let place = find(text, c);
    let first = part(text, 0, place);
    assert(text@.subrange(0, place as int) =~= text@.take(place as int));
    if place < text.len() {
        let second = part(text, place + 1, text.len());
        assert(text@.subrange(place + 1, text@.len() as int) =~= text@.skip(place + 1));
        (first, second, true)
    } else {
        (first, Vec::new(), false)
    }
}

/// Whether every character is a decimal digit.
fn all_digits(text: &Vec<u8>) -> (r: bool)
    ensures
        r == are_digits(text@),
{
    let mut i: usize = 0;
    while i < text.len()
        invariant
            i <= text@.len(),
            forall|k: int| 0 <= k < i ==> '0' as u8 <= #[trigger] text@[k] <= '9' as u8,
        decreases text@.len() - i,
    {
        if text[i] < 48 || text[i] > 57 {
            assert(!('0' as u8 <= text@[i as int] <= '9' as u8));
            return false;
        }
        i = i + 1;
    }
    true
}

/// Whether a text is a word.
fn is_word(text: &Vec<u8>, word: &[u8]) -> (r: bool)
    ensures
        r == (text@ == word@),
{
    if text.len() != word.len() {
        return false;
    }
    let mut i: usize = 0;
    while i < text.len()
        invariant
            i <= text@.len(),
            text@.len() == word@.len(),
            forall|k: int| 0 <= k < i ==> text@[k] == word@[k],
        decreases text@.len() - i,
    {
        if text[i] != word[i] {
            return false;
        }
        i = i + 1;
    }
    assert(text@ =~= word@);
    true
}

/// Whether there is a minus, and the text without its sign.
fn split_sign(text: &Vec<u8>) -> (r: (bool, Vec<u8>))
    ensures
        r.0 == is_negative(text@),
        r.1@ == unsigned(text@),
{
    if text.len() > 0 && (text[0] == 43 || text[0] == 45) {
        let rest = part(text, 1, text.len());
        assert(text@.subrange(1, text@.len() as int) =~= text@.skip(1));
        (text[0] == 45, rest)
    } else {
        let all = part(text, 0, text.len());
        assert(text@.subrange(0, text@.len() as int) =~= text@);
        (false, all)
    }
}

/// The text with small letters in place of capitals.
fn to_lower_case(text: &[u8]) -> (lower: Vec<u8>)
    ensures
        lower@ == lower_case(text@),
{
    let mut lower: Vec<u8> = Vec::new();
    let mut i: usize = 0;
    while i < text.len()
        invariant
            i <= text@.len(),
            lower@ =~= lower_case(text@).take(i as int),
        decreases text@.len() - i,
    {
        if 65 <= text[i] && text[i] <= 90 {
            lower.push(text[i] + 32);
        } else {
            lower.push(text[i]);
        }
        i = i + 1;
    }
    assert(lower_case(text@).take(i as int) =~= lower_case(text@));
    lower
}

/// As many digits stand for less than ten to the power of their number.
proof fn lemma_digits_bound(digits: Seq<u8>)
    requires
        are_digits(digits),
    ensures
        digits_value(digits) < pow(10, digits.len()),
    decreases digits.len(),
{
    reveal(pow);
    if digits.len() > 0 {
        assert(are_digits(digits.drop_last()));
        lemma_digits_bound(digits.drop_last());
        assert(pow(10, digits.len()) == 10 * pow(10, (digits.len() - 1) as nat));
    }
}

/// Digits without their last `k` stand for what is left without the last `k` places.
proof fn lemma_digits_dropped(digits: Seq<u8>, k: nat)
    requires
        are_digits(digits),
        k <= digits.len(),
    ensures
        digits_value(digits.take(digits.len() - k)) == digits_value(digits) as int / pow(10, k),
    decreases k,
{
    reveal(pow);
    if k == 0 {
        assert(digits.take(digits.len() as int) =~= digits);
        assert(pow(10, 0) == 1);
    } else {
        let shorter = digits.drop_last();
        assert(are_digits(shorter));
        lemma_digits_dropped(shorter, (k - 1) as nat);
        assert(shorter.take(shorter.len() - (k - 1)) =~= digits.take(digits.len() - k));
        let n = digits_value(digits) as int;
        let last = digits.last() - '0' as u8;
        assert('0' as u8 <= digits[digits.len() - 1] <= '9' as u8);
        lemma_fundamental_div_mod_converse(n, 10, digits_value(shorter) as int, last);
        lemma_pow_positive(10, (k - 1) as nat);
        lemma_div_denominator(n, 10, pow(10, (k - 1) as nat));
        assert(pow(10, k) == 10 * pow(10, (k - 1) as nat));
    }
}

/// One more place.
proof fn lemma_next_place(n: nat, shift: nat)
    ensures
        shifted(n, shift as int + 1) == shifted(n, shift as int) * 10,
{
    reveal(pow);
    lemma_pow_positive(10, shift);
    lemma_pow_positive(10, shift + 1);
    assert(pow(10, shift + 1) == 10 * pow(10, shift));
    assert(n * (10 * pow(10, shift)) == (n * pow(10, shift)) * 10) by (nonlinear_arith);
    assert(0 <= n * pow(10, shift)) by (nonlinear_arith)
        requires
            0 < pow(10, shift),
    ;
}

/// More places make no number smaller, and none make zero larger.
proof fn lemma_places_grow(n: nat, less: nat, more: nat)
    requires
        less <= more,
    ensures
        shifted(n, less as int) <= shifted(n, more as int),
        shifted(n, less as int) == 0 ==> shifted(n, more as int) == 0,
    decreases more - less,
{
    if less < more {
        lemma_places_grow(n, less, (more - 1) as nat);
        lemma_next_place(n, (more - 1) as nat);
    }
}

/// With thirty-nine places or more, no number from one on fits into 128 bits.
proof fn lemma_many_places(n: nat, shift: nat)
    requires
        n > 0,
        shift >= 39,
    ensures
        shifted(n, shift as int) > u128::MAX,
{
    lemma_places_grow(n, 39, shift);
    assert(pow(10, 39) == 1_000_000_000_000_000_000_000_000_000_000_000_000_000) by {
        reveal_with_fuel(pow, 40);
    }
    assert(n * pow(10, 39) >= pow(10, 39)) by (nonlinear_arith)
        requires
            n > 0,
            pow(10, 39) > 0,
    ;
}

/// The number with `shift` places more, or the largest of 128 bits if that is lower.
fn with_places(value: u128, shift: u128, Ghost(n): Ghost<nat>) -> (r: u128)
    requires
        value == at_most_u128(n),
    ensures
        r == at_most_u128(shifted(n, shift as int)),
{
    let mut r: u128 = value;
    let mut done: u128 = 0;
    assert(shifted(n, 0) == n) by {
        reveal(pow);
    }
    while done < shift && r != 0 && r != u128::MAX
        invariant
            done <= shift,
            r == at_most_u128(shifted(n, done as int)),
        decreases shift - done,
    {
        proof {
            lemma_next_place(n, done as nat);
        }
        if r > u128::MAX / 10 {
            r = u128::MAX;
        } else {
            r = r * 10;
        }
        done = done + 1;
    }
    proof {
        lemma_places_grow(n, done as nat, shift as nat);
    }
    r
}

/// The wei in a number of ETH, given its digits, how many of them come after the point, and its
/// exponent, which is below zero if `down`.
fn wei_in_number(digits: &Vec<u8>, fraction: usize, exponent: &Vec<u8>, down: bool) -> (wei: u128)
    requires
        are_digits(digits@),
        are_digits(exponent@),
    ensures
        wei == at_most_u128(
            shifted(
                digits_value(digits@),
                (if down {
                    -digits_value(exponent@)
                } else {
                    digits_value(exponent@) as int
                }) - fraction + 18,
            ),
        ),
{
    let ghost n = digits_value(digits@);
    let power = value_of(exponent, exponent.len());
    assert(exponent@.take(exponent@.len() as int) =~= exponent@);
    assert(digits@.take(digits@.len() as int) =~= digits@);
    // Larger than any number of digits by far.
    let limit: u128 = 0x1_0000_0000_0000_0000_0000;
    // The places to move the point by: those to the right, and those to the left.
    let (right, left): (u128, u128) = if power >= limit {
        if down {
            (0, limit)
        } else {
            (limit, 0)
        }
    } else if down {
        (18, power + fraction as u128)
    } else {
        (power + 18, fraction as u128)
    };
    let ghost shift = (if down {
        -digits_value(exponent@)
    } else {
        digits_value(exponent@) as int
    }) - fraction + 18;
    if right >= left {
        let value = value_of(digits, digits.len());
        let r = with_places(value, right - left, Ghost(n));
        proof {
            if power >= limit {
                if n > 0 {
                    lemma_many_places(n, limit as nat);
                    lemma_many_places(n, shift as nat);
                } else {
                    assert(shifted(0, 0) == 0) by {
                        reveal(pow);
                    }
                    lemma_places_grow(0, 0, limit as nat);
                    lemma_places_grow(0, 0, shift as nat);
                }
            }
        }
        r
    } else if left - right >= digits.len() as u128 {
        proof {
            lemma_digits_bound(digits@);
            reveal(pow);
            let k = (-shift) as nat;
            assert(k >= digits@.len());
            lemma_pow_increases(10, digits@.len(), k);
            lemma_basic_div(n as int, pow(10, k));
            assert(n as int / pow(10, k) == 0);
        }
        0
    } else {
        let k: usize = (left - right) as usize;
        proof {
            lemma_digits_dropped(digits@, k as nat);
        }
        value_of(digits, digits.len() - k)
    }
}

/// Parse a decimal string as ETH and convert to wei, exactly: a number with a sign and an exponent
/// or without, in any case of letters, or `inf`, `infinity` or `nan`. Nothing for any other text.
/// Example: "100" is 100 ETH, which are 100000000000000000000 wei.
pub fn eth_str_to_u256(text: &[u8]) -> (wei: Option<U256>)
    ensures
        wei is Some <==> amount_of(text@) is Some,
        wei matches Some(w) ==> w@ == wei_in(amount_of(text@)->0),
{
    let lower = to_lower_case(text);
    let (negative, body) = split_sign(&lower);
    let inf_word: [u8; 3] = [0x69, 0x6e, 0x66];
    let infinity_word: [u8; 8] = [0x69, 0x6e, 0x66, 0x69, 0x6e, 0x69, 0x74, 0x79];
    let nan_word: [u8; 3] = [0x6e, 0x61, 0x6e];
    assert(inf_word@ =~= inf());
    assert(infinity_word@ =~= infinity());
    assert(nan_word@ =~= nan());
    if is_word(&body, inf_word.as_slice()) || is_word(&body, infinity_word.as_slice()) {
        return Some(U256::from_u128(if negative { 0 } else { u128::MAX }));
    }
    if is_word(&body, nan_word.as_slice()) {
        return Some(U256::from_u128(0));
    }
    let (mantissa, exponent_text, has_exponent) = split(&body, 0x65);
    let (mut digits, mut fraction, _has_point) = split(&mantissa, 0x2e);
    if !all_digits(&digits) || !all_digits(&fraction) {
        return None;
    }
    if digits.len() == 0 && fraction.len() == 0 {
        return None;
    }
    let (down, exponent) = split_sign(&exponent_text);
    if has_exponent && (exponent.len() == 0 || !all_digits(&exponent)) {
        return None;
    }
    if negative {
        return Some(U256::from_u128(0));
    }
    let places = fraction.len();
    digits.append(&mut fraction);
    Some(U256::from_u128(wei_in_number(&digits, places, &exponent, down)))
}

/// How many times ten to the power of `unit` a number comes to, for a unit that is no larger than
/// its scale.
pub open spec fn in_units(negative: bool, digits: Seq<u8>, scale: int, unit: int) -> int {
    let size = digits_value(digits) * pow(10, (scale - unit) as nat);
    if negative {
        -size
    } else {
        size
    }
}

/// Whether one amount is at most another. What is not a number is neither more nor less than
/// anything.
pub open spec fn is_at_most(a: Amount, b: Amount) -> bool {
    match (a, b) {
        (Amount::NotANumber, _) => false,
        (_, Amount::NotANumber) => false,
        (Amount::Infinite { negative: true }, _) => true,
        (_, Amount::Infinite { negative: false }) => true,
        (
            Amount::Number { negative: n1, digits: d1, scale: s1 },
            Amount::Number { negative: n2, digits: d2, scale: s2 },
        ) => {
            let unit = if s1 < s2 {
                s1
            } else {
                s2
            };
            in_units(n1, d1, s1, unit) <= in_units(n2, d2, s2, unit)
        },
        _ => false,
    }
}

/// A number in smaller units.
proof fn lemma_smaller_units(n: nat, scale: int, unit: int, smaller: int)
    requires
        smaller <= unit <= scale,
    ensures
        n * pow(10, (scale - smaller) as nat) == (n * pow(10, (scale - unit) as nat)) * pow(
            10,
            (unit - smaller) as nat,
        ),
{
    let (a, b) = ((scale - unit) as nat, (unit - smaller) as nat);
    lemma_pow_adds(10, a, b);
    assert(n * (pow(10, a) * pow(10, b)) == (n * pow(10, a)) * pow(10, b)) by (nonlinear_arith);
}

/// The wei in a number are its whole wei, in whatever smaller units it is given.
proof fn lemma_wei_in_units(n: nat, scale: int, unit: int)
    requires
        unit <= scale,
        unit <= -18,
    ensures
        shifted(n, scale + 18) == n * pow(10, (scale - unit) as nat) / pow(10, (-18 - unit) as nat),
{
    let wei = (-18 - unit) as nat;
    lemma_pow_positive(10, wei);
    if scale + 18 >= 0 {
        lemma_smaller_units(n, scale, -18, unit);
        let whole = n * pow(10, (scale + 18) as nat);
        lemma_pow_positive(10, (scale + 18) as nat);
        assert(0 <= whole) by (nonlinear_arith)
            requires
                whole == n * pow(10, (scale + 18) as nat),
                0 < pow(10, (scale + 18) as nat),
        ;
        lemma_div_multiples_vanish(whole, pow(10, wei));
        assert(whole * pow(10, wei) == pow(10, wei) * whole) by (nonlinear_arith);
    } else {
        let extra = (scale - unit) as nat;
        let dropped = (-(scale + 18)) as nat;
        lemma_pow_positive(10, extra);
        lemma_pow_positive(10, dropped);
        lemma_pow_adds(10, extra, dropped);
        lemma_div_denominator(n * pow(10, extra), pow(10, extra), pow(10, dropped));
        lemma_div_multiples_vanish(n as int, pow(10, extra));
        assert(n * pow(10, extra) == pow(10, extra) * n) by (nonlinear_arith);
        lemma_div_pos_is_pos(n as int, pow(10, dropped));
    }
}

/// A larger amount of ETH gives no fewer wei: amounts below zero give none, and large ones do not
/// wrap.
pub proof fn law_wei_grows(a: Amount, b: Amount)
    requires
        is_at_most(a, b),
    ensures
        wei_in(a) <= wei_in(b),
{
    match (a, b) {
        (
            Amount::Number { negative: n1, digits: d1, scale: s1 },
            Amount::Number { negative: n2, digits: d2, scale: s2 },
        ) => {
            if !n1 {
                let unit = if s1 < s2 {
                    s1
                } else {
                    s2
                };
                let smaller = if unit < -18 {
                    unit
                } else {
                    -18
                };
                let (v1, v2) = (digits_value(d1), digits_value(d2));
                lemma_pow_positive(10, (s1 - unit) as nat);
                lemma_pow_positive(10, (s2 - unit) as nat);
                lemma_pow_positive(10, (unit - smaller) as nat);
                lemma_pow_positive(10, (-18 - smaller) as nat);
                lemma_smaller_units(v1, s1, unit, smaller);
                lemma_smaller_units(v2, s2, unit, smaller);
                lemma_wei_in_units(v1, s1, smaller);
                lemma_wei_in_units(v2, s2, smaller);
                let (x1, x2) = (
                    v1 * pow(10, (s1 - unit) as nat),
                    v2 * pow(10, (s2 - unit) as nat),
                );
                let (p1, p2) = (pow(10, (s1 - unit) as nat), pow(10, (s2 - unit) as nat));
                assert(0 <= v1 * p1 && 0 <= v2 * p2) by (nonlinear_arith)
                    requires
                        0 < p1,
                        0 < p2,
                ;
                let more = pow(10, (unit - smaller) as nat);
                let other = if n2 {
                    0
                } else {
                    x2
                };
                assert(x1 <= other);
                assert(x1 * more <= other * more) by (nonlinear_arith)
                    requires
                        x1 <= other,
                        0 < more,
                ;
                lemma_div_is_ordered(x1 * more, other * more, pow(10, (-18 - smaller) as nat));
                if n2 {
                    assert(x1 == 0);
                    assert(x1 * more == 0) by (nonlinear_arith)
                        requires
                            x1 == 0,
                    ;
                    lemma_basic_div(0, pow(10, (-18 - smaller) as nat));
                }
            }
        },
        _ => {},
    }
}

/// The same of texts: if one stands for an amount that is at most that of another, the wei that it
/// comes to are no more.
pub proof fn law_wei_of_texts_grow(a: Seq<u8>, b: Seq<u8>)
    requires
        amount_of(a) is Some,
        amount_of(b) is Some,
        is_at_most(amount_of(a)->0, amount_of(b)->0),
    ensures
        wei_in(amount_of(a)->0) <= wei_in(amount_of(b)->0),
{
    law_wei_grows(amount_of(a)->0, amount_of(b)->0);
}

/// Digits stand for a number in the decimal system: none for zero, and each further one for ten
/// times what came before and itself.
pub proof fn law_decimal_digits(digits: Seq<u8>, digit: u8)
    requires
        48 <= digit <= 57,
    ensures
        digits_value(Seq::<u8>::empty()) == 0,
        digits_value(digits.push(digit)) == 10 * digits_value(digits) + (digit - 48),
{
    assert(digits.push(digit).drop_last() =~= digits);
}

/// The value of digits that come one after the other.
proof fn lemma_digits_of_both(a: Seq<u8>, b: Seq<u8>)
    requires
        are_digits(b),
    ensures
        digits_value(a + b) == digits_value(a) * pow(10, b.len()) + digits_value(b),
    decreases b.len(),
{
    reveal(pow);
    if b.len() == 0 {
        assert(a + b =~= a);
    } else {
        let shorter = b.drop_last();
        assert(are_digits(shorter));
        lemma_digits_of_both(a, shorter);
        assert((a + b).drop_last() =~= a + shorter);
        let power = pow(10, (b.len() - 1) as nat);
        let last = b.last() - '0' as u8;
        assert('0' as u8 <= b[b.len() - 1] <= '9' as u8);
        assert(pow(10, b.len()) == 10 * power);
        let (x, y) = (digits_value(a) as int, digits_value(shorter) as int);
        lemma_pow_positive(10, (b.len() - 1) as nat);
        assert((x * power + y) * 10 + last == x * (10 * power) + (y * 10 + last))
            by (nonlinear_arith);
    }
}

/// The first place of a character behind a text without it.
proof fn lemma_first_place(a: Seq<u8>, c: u8, b: Seq<u8>)
    requires
        forall|i: int| 0 <= i < a.len() ==> a[i] != c,
    ensures
        place_of(a, c) == a.len(),
        place_of(a + seq![c] + b, c) == a.len(),
        before(a + seq![c] + b, c) == a,
        after(a + seq![c] + b, c) == b,
        before(a, c) == a,
        after(a, c) == Seq::<u8>::empty(),
{
    let text = a + seq![c] + b;
    text.index_of_first_ensures(c);
    a.index_of_first_ensures(c);
    assert(text[a.len() as int] == c);
    let place = place_of(text, c);
    if place < a.len() {
        assert(text[place] == a[place]);
    }
    assert(text.contains(c));
    assert(place == a.len());
    assert(text.take(a.len() as int) =~= a);
    assert(text.skip(a.len() as int + 1) =~= b);
    assert(a.take(a.len() as int) =~= a);
}

/// Capitals of two texts, one after the other.
proof fn lemma_lower_case_of_both(a: Seq<u8>, b: Seq<u8>)
    ensures
        lower_case(a + b) == lower_case(a) + lower_case(b),
{
    assert(lower_case(a + b) =~= lower_case(a) + lower_case(b));
}

/// A text without letters has no capitals.
proof fn lemma_no_capitals(a: Seq<u8>)
    requires
        forall|i: int| 0 <= i < a.len() ==> a[i] < 65,
    ensures
        lower_case(a) == a,
{
    assert(lower_case(a) =~= a);
}

/// Small letters take the place of capitals, and nothing else changes.
pub proof fn law_lower_case(text: Seq<u8>)
    ensures
        lower_case(text).len() == text.len(),
        forall|i: int|
            0 <= i < text.len() ==> #[trigger] lower_case(text)[i] == (if 65 <= text[i] <= 90 {
                text[i] + 32
            } else {
                text[i] as int
            }),
{
}

/// A text behind a sign.
proof fn lemma_behind_sign(sign: Seq<u8>, body: Seq<u8>)
    requires
        sign == Seq::<u8>::empty() || sign == seq![43u8] || sign == seq![45u8],
        body.len() > 0,
        body[0] != 43,
        body[0] != 45,
    ensures
        unsigned(sign + body) == body,
        is_negative(sign + body) <==> sign == seq![45u8],
{
    let text = sign + body;
    if sign.len() > 0 {
        assert(text[0] == sign[0]);
        assert(text.skip(1) =~= body);
    } else {
        assert(text =~= body);
    }
}

/// The parts of a decimal number.
proof fn lemma_mantissa(whole: Seq<u8>, has_point: bool, decimals: Seq<u8>, mantissa: Seq<u8>)
    requires
        are_digits(whole),
        are_digits(decimals),
        whole.len() + decimals.len() > 0,
        !has_point ==> decimals.len() == 0,
        mantissa == (if has_point {
            whole + seq![46u8] + decimals
        } else {
            whole
        }),
    ensures
        before(mantissa, 46) == whole,
        after(mantissa, 46) == decimals,
        is_decimal(mantissa),
        mantissa.len() > 0,
        forall|i: int|
            0 <= i < mantissa.len() ==> (#[trigger] mantissa[i] == 46 || 48 <= mantissa[i] <= 57),
{
    lemma_first_place(whole, 46, decimals);
    assert(decimals.len() == 0 ==> decimals =~= Seq::<u8>::empty());
    if has_point {
        assert forall|i: int| 0 <= i < mantissa.len() implies (#[trigger] mantissa[i] == 46 || 48
            <= mantissa[i] <= 57) by {
            if i < whole.len() {
                assert(mantissa[i] == whole[i]);
            } else if i > whole.len() {
                assert(mantissa[i] == decimals[i - whole.len() - 1]);
            }
        }
    }
}

/// The parts of an exponent.
proof fn lemma_exponent(exponent_sign: Seq<u8>, exponent: Seq<u8>)
    requires
        exponent_sign == Seq::<u8>::empty() || exponent_sign == seq![43u8] || exponent_sign
            == seq![45u8],
        are_digits(exponent),
        exponent.len() > 0,
    ensures
        is_integer(exponent_sign + exponent),
        integer_value(exponent_sign + exponent) == (if exponent_sign == seq![45u8] {
            -digits_value(exponent)
        } else {
            digits_value(exponent) as int
        }),
        forall|i: int|
            0 <= i < (exponent_sign + exponent).len() ==> #[trigger] (exponent_sign + exponent)[i]
                < 65,
{
    assert(48 <= exponent[0] <= 57);
    lemma_behind_sign(exponent_sign, exponent);
    let tail = exponent_sign + exponent;
    assert forall|i: int| 0 <= i < tail.len() implies #[trigger] tail[i] < 65 by {
        if i < exponent_sign.len() {
            assert(tail[i] == exponent_sign[i]);
        } else {
            assert(tail[i] == exponent[i - exponent_sign.len()]);
        }
    }
}

/// The number that a text without a sign writes in small letters.
proof fn lemma_number_in_parts(
    negative: bool,
    whole: Seq<u8>,
    has_point: bool,
    decimals: Seq<u8>,
    mantissa: Seq<u8>,
    has_exponent: bool,
    exponent_sign: Seq<u8>,
    exponent: Seq<u8>,
    body: Seq<u8>,
)
    requires
        are_digits(whole),
        are_digits(decimals),
        whole.len() + decimals.len() > 0,
        !has_point ==> decimals.len() == 0,
        mantissa == (if has_point {
            whole + seq![46u8] + decimals
        } else {
            whole
        }),
        exponent_sign == Seq::<u8>::empty() || exponent_sign == seq![43u8] || exponent_sign
            == seq![45u8],
        are_digits(exponent),
        exponent.len() > 0 <==> has_exponent,
        !has_exponent ==> exponent_sign.len() == 0,
        body == (if has_exponent {
            mantissa + seq![101u8] + (exponent_sign + exponent)
        } else {
            mantissa
        }),
    ensures
        is_number(body),
        number_of(negative, body) == (Amount::Number {
            negative,
            digits: whole + decimals,
            scale: (if exponent_sign == seq![45u8] {
                -digits_value(exponent)
            } else {
                digits_value(exponent) as int
            }) - decimals.len(),
        }),
        body.len() > 0,
        body[0] == 46 || 48 <= body[0] <= 57,
{
    lemma_mantissa(whole, has_point, decimals, mantissa);
    assert(forall|i: int| 0 <= i < mantissa.len() ==> mantissa[i] != 101);
    lemma_first_place(mantissa, 101, exponent_sign + exponent);
    assert(mantissa[0] == 46 || 48 <= mantissa[0] <= 57);
    if has_exponent {
        lemma_exponent(exponent_sign, exponent);
        assert(body[0] == mantissa[0]);
        assert(place_of(body, 101) < body.len());
    } else {
        assert(exponent_sign != seq![45u8]) by {
            assert(seq![45u8].len() == 1);
        }
        assert(digits_value(exponent) == 0);
    }
}

/// The wei in a number with so many places to move the point by.
proof fn lemma_moved(n: nat, places: int)
    ensures
        at_most_u128(shifted(n, places)) == ({
            let wei = if places >= 0 {
                n * pow(10, places as nat)
            } else {
                n as int / pow(10, (-places) as nat)
            };
            if wei <= u128::MAX {
                wei
            } else {
                u128::MAX as int
            }
        }),
{
    if places >= 0 {
        let p = pow(10, places as nat);
        lemma_pow_positive(10, places as nat);
        assert(0 <= n * p) by (nonlinear_arith)
            requires
                0 < p,
        ;
    } else {
        lemma_pow_positive(10, (-places) as nat);
        lemma_div_pos_is_pos(n as int, pow(10, (-places) as nat));
    }
}

/// A text in small letters, given its parts.
proof fn lemma_parts_in_lower_case(
    sign: Seq<u8>,
    mantissa: Seq<u8>,
    has_exponent: bool,
    e: u8,
    tail: Seq<u8>,
)
    requires
        forall|i: int| 0 <= i < sign.len() ==> #[trigger] sign[i] < 65,
        forall|i: int| 0 <= i < mantissa.len() ==> #[trigger] mantissa[i] < 65,
        forall|i: int| 0 <= i < tail.len() ==> #[trigger] tail[i] < 65,
        e == 101 || e == 69,
    ensures
        lower_case(
            sign + (if has_exponent {
                mantissa + seq![e] + tail
            } else {
                mantissa
            }),
        ) == sign + (if has_exponent {
            mantissa + seq![101u8] + tail
        } else {
            mantissa
        }),
{
    lemma_no_capitals(sign);
    lemma_no_capitals(mantissa);
    lemma_no_capitals(tail);
    assert(lower_case(seq![e]) =~= seq![101u8]);
    lemma_lower_case_of_both(mantissa, seq![e]);
    lemma_lower_case_of_both(mantissa + seq![e], tail);
    lemma_lower_case_of_both(sign, mantissa + seq![e] + tail);
    lemma_lower_case_of_both(sign, mantissa);
}

/// Every text that writes a number of ETH, with a sign or without, with a point and decimals or
/// without, with an exponent or without, stands for the number that it writes: it comes to that
/// number times 10^18, rounded down, or to none below zero, or to the largest number of 128 bits
/// above that.
pub proof fn law_written_number(
    sign: Seq<u8>,
    whole: Seq<u8>,
    has_point: bool,
    decimals: Seq<u8>,
    has_exponent: bool,
    e: u8,
    exponent_sign: Seq<u8>,
    exponent: Seq<u8>,
)
    requires
        sign == Seq::<u8>::empty() || sign == seq![43u8] || sign == seq![45u8],
        forall|i: int| 0 <= i < whole.len() ==> 48 <= #[trigger] whole[i] <= 57,
        forall|i: int| 0 <= i < decimals.len() ==> 48 <= #[trigger] decimals[i] <= 57,
        whole.len() + decimals.len() > 0,
        !has_point ==> decimals.len() == 0,
        e == 101 || e == 69,
        exponent_sign == Seq::<u8>::empty() || exponent_sign == seq![43u8] || exponent_sign == seq![45u8],
        forall|i: int| 0 <= i < exponent.len() ==> 48 <= #[trigger] exponent[i] <= 57,
        exponent.len() > 0 <==> has_exponent,
        !has_exponent ==> exponent_sign.len() == 0,
    ensures
        ({
            let mantissa = if has_point {
                whole + seq![46u8] + decimals
            } else {
                whole
            };
            let text = sign + (if has_exponent {
                mantissa + seq![e] + (exponent_sign + exponent)
            } else {
                mantissa
            });
            let number = digits_value(whole) * pow(10, decimals.len()) + digits_value(decimals);
            let power = if exponent_sign == seq![45u8] {
                -digits_value(exponent)
            } else {
                digits_value(exponent) as int
            };
            let places = 18 + power - decimals.len();
            let wei = if places >= 0 {
                number * pow(10, places as nat)
            } else {
                number / pow(10, (-places) as nat)
            };
            &&& amount_of(text) is Some
            &&& wei_in(amount_of(text)->0) == (if sign == seq![45u8] {
                0
            } else if wei <= u128::MAX {
                wei
            } else {
                u128::MAX as int
            })
        }),
{
    let mantissa = if has_point {
        whole + seq![46u8] + decimals
    } else {
        whole
    };
    let tail = exponent_sign + exponent;
    let body = if has_exponent {
        mantissa + seq![101u8] + tail
    } else {
        mantissa
    };
    assert(are_digits(whole) && are_digits(decimals) && are_digits(exponent));
    lemma_mantissa(whole, has_point, decimals, mantissa);
    if has_exponent {
        lemma_exponent(exponent_sign, exponent);
    }
    lemma_parts_in_lower_case(sign, mantissa, has_exponent, e, tail);
    lemma_number_in_parts(
        sign == seq![45u8],
        whole,
        has_point,
        decimals,
        mantissa,
        has_exponent,
        exponent_sign,
        exponent,
        body,
    );
    lemma_behind_sign(sign, body);
    assert(inf()[0] == 0x69 && infinity()[0] == 0x69 && nan()[0] == 0x6e);
    lemma_digits_of_both(whole, decimals);
    let power = if exponent_sign == seq![45u8] {
        -digits_value(exponent)
    } else {
        digits_value(exponent) as int
    };
    lemma_moved(digits_value(whole + decimals), 18 + power - decimals.len());
}

/// Whether a text in small letters writes a number in these parts.
pub open spec fn is_written(
    text: Seq<u8>,
    sign: Seq<u8>,
    whole: Seq<u8>,
    point_and_decimals: Seq<u8>,
    exponent: Seq<u8>,
) -> bool {
    &&& text == sign + whole + point_and_decimals + exponent
    &&& sign == Seq::<u8>::empty() || sign == seq![43u8] || sign == seq![45u8]
    &&& forall|i: int| 0 <= i < whole.len() ==> 48 <= #[trigger] whole[i] <= 57
    &&& point_and_decimals.len() == 0 || point_and_decimals[0] == 46 && forall|i: int|
        1 <= i < point_and_decimals.len() ==> 48 <= #[trigger] point_and_decimals[i] <= 57
    &&& whole.len() > 0 || point_and_decimals.len() > 1
    &&& exponent.len() == 0 || {
        &&& exponent[0] == 101
        &&& exponent.len() > 1
        &&& 48 <= exponent[1] <= 57 || (exponent[1] == 43 || exponent[1] == 45) && exponent.len()
            > 2
        &&& forall|i: int| 2 <= i < exponent.len() ==> 48 <= #[trigger] exponent[i] <= 57
    }
}

/// A text that stands for an amount is a number in parts that come in this order, up to the case of
/// its letters, or one of three words behind a sign or none. No other text does.
pub proof fn law_other_texts_are_refused(text: Seq<u8>)
    requires
        amount_of(text) is Some,
    ensures
        ({
            let lower = lower_case(text);
            let body = if lower.len() > 0 && (lower[0] == 43 || lower[0] == 45) {
                lower.skip(1)
            } else {
                lower
            };
            ||| body == seq![105u8, 110u8, 102u8]
            ||| body == seq![105u8, 110u8, 102u8, 105u8, 110u8, 105u8, 116u8, 121u8]
            ||| body == seq![110u8, 97u8, 110u8]
            ||| exists|sign: Seq<u8>, whole: Seq<u8>, decimals: Seq<u8>, exponent: Seq<u8>|
                is_written(lower, sign, whole, decimals, exponent)
        }),
{
    let lower = lower_case(text);
    let body = unsigned(lower);
    let sign = if has_sign(lower) {
        lower.take(1)
    } else {
        seq![]
    };
    if has_sign(lower) {
        assert(sign =~= seq![lower[0]]);
    }
    assert(sign + body =~= lower);
    if body != inf() && body != infinity() && body != nan() {
        lemma_exponent_of_number(body);
        let mantissa = before(body, 101);
        let exponent = body.skip(place_of(body, 101));
        lemma_parts_of_decimal(mantissa);
        let whole = before(mantissa, 46);
        let decimals = mantissa.skip(place_of(mantissa, 46));
        assert(sign + whole + decimals + exponent =~= sign + ((whole + decimals) + exponent));
        assert(is_written(lower, sign, whole, decimals, exponent));
    }
}

/// A decimal number is digits, and a point and digits, or one of both.
proof fn lemma_parts_of_decimal(text: Seq<u8>)
    requires
        is_decimal(text),
    ensures
        ({
            let whole = before(text, 46);
            let decimals = text.skip(place_of(text, 46));
            &&& text == whole + decimals
            &&& forall|i: int| 0 <= i < whole.len() ==> 48 <= #[trigger] whole[i] <= 57
            &&& decimals.len() == 0 || decimals[0] == 46 && forall|i: int|
                1 <= i < decimals.len() ==> 48 <= #[trigger] decimals[i] <= 57
            &&& whole.len() > 0 || decimals.len() > 1
        }),
{
    text.index_of_first_ensures(46);
    let point = place_of(text, 46);
    let whole = before(text, 46);
    let decimals = text.skip(point);
    assert(text =~= whole + decimals);
    assert forall|i: int| 1 <= i < decimals.len() implies 48 <= #[trigger] decimals[i] <= 57 by {
        assert(after(text, 46)[i - 1] == decimals[i]);
    }
}

/// A number is a decimal number, and an `e` and a whole number, or the first alone.
proof fn lemma_exponent_of_number(text: Seq<u8>)
    requires
        is_number(text),
    ensures
        ({
            let exponent = text.skip(place_of(text, 101));
            &&& text == before(text, 101) + exponent
            &&& is_decimal(before(text, 101))
            &&& exponent.len() == 0 || {
                &&& exponent[0] == 101
                &&& exponent.len() > 1
                &&& 48 <= exponent[1] <= 57 || (exponent[1] == 43 || exponent[1] == 45)
                    && exponent.len() > 2
                &&& forall|i: int| 2 <= i < exponent.len() ==> 48 <= #[trigger] exponent[i] <= 57
            }
        }),
{
    text.index_of_first_ensures(101);
    let e = place_of(text, 101);
    let exponent = text.skip(e);
    assert(text =~= before(text, 101) + exponent);
    if exponent.len() > 0 {
        let tail = after(text, 101);
        let digits = unsigned(tail);
        assert(tail =~= exponent.skip(1));
        if has_sign(tail) {
            assert(digits.len() == exponent.len() - 2);
            assert forall|i: int| 2 <= i < exponent.len() implies 48 <= #[trigger] exponent[i]
                <= 57 by {
                assert(digits[i - 2] == exponent[i]);
            }
        } else {
            assert(digits.len() == exponent.len() - 1);
            assert(digits[0] == exponent[1]);
            assert forall|i: int| 2 <= i < exponent.len() implies 48 <= #[trigger] exponent[i]
                <= 57 by {
                assert(digits[i - 1] == exponent[i]);
            }
        }
    }
}

/// The words for what is no number, in any case of letters, behind a sign or none: an infinite
/// amount comes to the largest number of 128 bits, or to none below zero, and what is not a number
/// comes to none.
pub proof fn law_words(sign: Seq<u8>, word: Seq<u8>)
    requires
        sign == Seq::<u8>::empty() || sign == seq![43u8] || sign == seq![45u8],
    ensures
        lower_case(word) == seq![105u8, 110u8, 102u8] || lower_case(word) == seq![
            105u8,
            110u8,
            102u8,
            105u8,
            110u8,
            105u8,
            116u8,
            121u8,
        ] ==> amount_of(sign + word) is Some && wei_in(amount_of(sign + word)->0) == (if sign
            == seq![45u8] {
            0
        } else {
            u128::MAX as int
        }),
        lower_case(word) == seq![110u8, 97u8, 110u8] ==> amount_of(sign + word) is Some && wei_in(
            amount_of(sign + word)->0,
        ) == 0,
{
    lemma_lower_case_of_both(sign, word);
    lemma_no_capitals(sign);
    let lower = lower_case(sign + word);
    let body = lower_case(word);
    if body.len() > 0 && 97 <= body[0] {
        if sign.len() > 0 {
            assert(lower[0] == sign[0]);
            assert(lower.skip(1) =~= body);
        } else {
            assert(lower =~= body);
        }
        assert(unsigned(lower) == body);
    }
}

} // verus!
