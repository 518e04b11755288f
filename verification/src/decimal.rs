//! Decimal text: identifiers written as plain digits, and amounts written as
//! fixed-point decimals with up to four meaningful fraction digits.

use crate::books::fits;
use vstd::prelude::*;
use vstd::slice::slice_subrange;

verus! {

/// The number of ten-thousandths in one unit.
pub const SCALE: u64 = 10000;

/// The largest magnitude of an amount: that of the most negative one.
pub const MAGNITUDE_MAX: u64 = 9223372036854775808;

/// The largest whole part whose amount can still have a magnitude within range.
pub const WHOLE_MAX: u64 = 922337203685477;

/// Whether `b` is one of the ten ASCII digits.
pub open spec fn is_digit(b: u8) -> bool {
    '0' as u8 <= b <= '9' as u8
}

/// The number that the digit `b` stands for.
pub open spec fn digit_value(b: u8) -> nat {
    (b - '0' as u8) as nat
}

/// Whether every byte of `s` is a digit.
pub open spec fn all_digits(s: Seq<u8>) -> bool {
    forall|i: int| 0 <= i < s.len() ==> is_digit(#[trigger] s[i])
}

/// The number that the digits of `s` write in decimal; zero for no digits.
pub open spec fn digits_value(s: Seq<u8>) -> nat
    decreases s.len(),
{
    if s.len() == 0 {
        0
    } else {
        digits_value(s.drop_last()) * 10 + digit_value(s.last())
    }
}

/// The number that `s` writes, if `s` holds digits only and the number is at
/// most `max`.
pub open spec fn value_of_digits(s: Seq<u8>, max: nat) -> Option<nat> {
    if all_digits(s) && digits_value(s) <= max {
        Some(digits_value(s))
    } else {
        None
    }
}

/// The number that `text` writes, if `text` is one or more digits and the
/// number is at most `max`.
pub open spec fn number_of_text(text: Seq<u8>, max: nat) -> Option<nat> {
    if text.len() > 0 {
        value_of_digits(text, max)
    } else {
        None
    }
}

/// The client identifier that `text` writes, if it writes one.
pub open spec fn client_of_text(text: Seq<u8>) -> Option<u16> {
    match number_of_text(text, u16::MAX as nat) {
        Some(n) => Some(n as u16),
        None => None,
    }
}

/// The transaction identifier that `text` writes, if it writes one.
pub open spec fn tx_of_text(text: Seq<u8>) -> Option<u32> {
    match number_of_text(text, u32::MAX as nat) {
        Some(n) => Some(n as u32),
        None => None,
    }
}

/// Reads `text` as a run of digits that writes a number of at most `max`.
pub fn digits_to_number(text: &[u8], max: u64) -> (number: Option<u64>)
    ensures
        match number {
            Some(n) => value_of_digits(text@, max as nat) == Some(n as nat),
            None => value_of_digits(text@, max as nat).is_none(),
        },
{
    let mut value: u64 = 0;
    let mut exceeded = false;
    let mut i: usize = 0;
    while i < text.len()
        invariant
            i <= text.len(),
            all_digits(text@.take(i as int)),
            !exceeded ==> value == digits_value(text@.take(i as int)) && value <= max,
            exceeded ==> digits_value(text@.take(i as int)) > max,
        decreases text.len() - i,
    {
        let b = text[i];
        if b < '0' as u8 || b > '9' as u8 {
            assert(!is_digit(text@[i as int]));
            return None;
        }
        let d: u64 = (b - '0' as u8) as u64;
        proof {
            let longer = text@.take(i + 1);
            assert(longer.drop_last() =~= text@.take(i as int));
            assert(longer.last() == b);
            assert forall|j: int| 0 <= j < longer.len() implies is_digit(#[trigger] longer[j]) by {
                if j < i {
                    assert(longer[j] == text@.take(i as int)[j]);
                }
            }
        }
        if !exceeded {
            let next: u128 = (value as u128) * 10 + (d as u128);
            if next > max as u128 {
                exceeded = true;
            } else {
                value = next as u64;
            }
        }
        i += 1;
    }
    assert(text@.take(i as int) =~= text@);
    if exceeded {
        None
    } else {
        Some(value)
    }
}

/// Reads `text` as a client identifier: one or more digits that write a
/// number of at most 65535.
pub fn parse_client(text: &[u8]) -> (client: Option<u16>)
    ensures
        client == client_of_text(text@),
{
    if text.len() == 0 {
        return None;
    }
    match digits_to_number(text, 65535) {
        Some(n) => Some(n as u16),
        None => None,
    }
}

/// Reads `text` as a transaction identifier: one or more digits that write a
/// number of at most 4294967295.
pub fn parse_tx(text: &[u8]) -> (tx: Option<u32>)
    ensures
        tx == tx_of_text(text@),
{
    if text.len() == 0 {
        return None;
    }
    match digits_to_number(text, 4294967295) {
        Some(n) => Some(n as u32),
        None => None,
    }
}

} // verus!

verus! {

/// The digit at place `i` of `fraction`, or zero where it has no such place.
pub open spec fn fraction_digit(fraction: Seq<u8>, i: int) -> nat {
    if i < fraction.len() {
        digit_value(fraction[i])
    } else {
        0
    }
}

/// The ten-thousandths that the fraction digits stand for: the first four
/// count, and digits after them are dropped.
pub open spec fn fraction_value(fraction: Seq<u8>) -> nat {
    fraction_digit(fraction, 0) * 1000 + fraction_digit(fraction, 1) * 100 + fraction_digit(
        fraction,
        2,
    ) * 10 + fraction_digit(fraction, 3)
}

/// Whether `body` is an unsigned decimal whose whole part is its first `k`
/// bytes: digits up to `k`, then either the end or a point and digits to the
/// end, with at least one digit in all.
pub open spec fn splits_at(body: Seq<u8>, k: int) -> bool {
    &&& 0 <= k <= body.len()
    &&& all_digits(body.take(k))
    &&& if k == body.len() {
        k >= 1
    } else {
        body[k] == '.' as u8 && all_digits(body.skip(k + 1)) && body.len() >= 2
    }
}

/// The fraction digits of a `body` that splits at `k`.
pub open spec fn fraction_after(body: Seq<u8>, k: int) -> Seq<u8> {
    if k < body.len() {
        body.skip(k + 1)
    } else {
        Seq::empty()
    }
}

/// The ten-thousandths that a `body` that splits at `k` stands for.
pub open spec fn magnitude_at(body: Seq<u8>, k: int) -> nat {
    digits_value(body.take(k)) * 10000 + fraction_value(fraction_after(body, k))
}

/// The ten-thousandths that the unsigned decimal `body` stands for, if it is one.
pub open spec fn magnitude_of_text(body: Seq<u8>) -> Option<nat> {
    if exists|k: int| splits_at(body, k) {
        Some(magnitude_at(body, choose|k: int| splits_at(body, k)))
    } else {
        None
    }
}

/// Whether `text` begins with a sign.
pub open spec fn has_sign(text: Seq<u8>) -> bool {
    text.len() > 0 && (text[0] == '-' as u8 || text[0] == '+' as u8)
}

/// The amount that `text` writes: an optional sign and an unsigned decimal,
/// if the amount is within the range of 64 bits.
pub open spec fn amount_of_text(text: Seq<u8>) -> Option<i64> {
    let body = if has_sign(text) {
        text.skip(1)
    } else {
        text
    };
    match magnitude_of_text(body) {
        Some(magnitude) => {
            let value = if has_sign(text) && text[0] == '-' as u8 {
                -(magnitude as int)
            } else {
                magnitude as int
            };
            if fits(value) {
                Some(value as i64)
            } else {
                None
            }
        },
        None => None,
    }
}

/// The amount of a record's amount field: zero where the field is blank.
pub open spec fn amount_of_field(field: Seq<u8>) -> Option<i64> {
    if field.len() == 0 {
        Some(0i64)
    } else {
        amount_of_text(field)
    }
}

/// A text splits as an unsigned decimal in at most one place.
pub proof fn lemma_split_is_unique(body: Seq<u8>, k1: int, k2: int)
    requires
        splits_at(body, k1),
        splits_at(body, k2),
    ensures
        k1 == k2,
{
    if k1 < k2 {
        assert(is_digit(body.take(k2)[k1]));
    } else if k2 < k1 {
        assert(is_digit(body.take(k1)[k2]));
    }
}

/// The number of digits that `text` begins with.
fn leading_digits(text: &[u8]) -> (k: usize)
    ensures
        k <= text.len(),
        all_digits(text@.take(k as int)),
        k < text.len() ==> !is_digit(text@[k as int]),
{
    let mut k: usize = 0;
    while k < text.len() && text[k] >= '0' as u8 && text[k] <= '9' as u8
        invariant
            k <= text.len(),
            all_digits(text@.take(k as int)),
        decreases text.len() - k,
    {
        proof {
            let longer = text@.take(k + 1);
            assert forall|j: int| 0 <= j < longer.len() implies is_digit(#[trigger] longer[j]) by {
                if j < k {
                    assert(longer[j] == text@.take(k as int)[j]);
                }
            }
        }
        k += 1;
    }
    k
}

/// The digit at place `i` of `fraction`, which holds digits only, or zero
/// where it has no such place.
fn fraction_digit_at(fraction: &[u8], i: usize) -> (d: u64)
    requires
        all_digits(fraction@),
    ensures
        d == fraction_digit(fraction@, i as int),
        d <= 9,
{
    if i < fraction.len() {
        assert(is_digit(fraction@[i as int]));
        (fraction[i] - '0' as u8) as u64
    } else {
        0
    }
}

/// Reads `body` as an unsigned decimal and gives the ten-thousandths it
/// stands for, where they are at most `MAGNITUDE_MAX`.
pub fn parse_magnitude(body: &[u8]) -> (magnitude: Option<u64>)
    ensures
        match magnitude {
            Some(m) => magnitude_of_text(body@) == Some(m as nat) && m <= MAGNITUDE_MAX,
            None => magnitude_of_text(body@) matches Some(m) ==> m > MAGNITUDE_MAX,
        },
{
    let n = body.len();
    let k = leading_digits(body);
    if k < n && body[k] != '.' as u8 {
        proof {
            assert forall|c: int| !splits_at(body@, c) by {
                if splits_at(body@, c) {
                    if c < k {
                        assert(is_digit(body@.take(k as int)[c]));
                    } else if c > k {
                        assert(is_digit(body@.take(c)[k as int]));
                    }
                }
            }
        }
        return None;
    }
    let whole = slice_subrange(body, 0, k);
    let fraction = if k < n {
        slice_subrange(body, k + 1, n)
    } else {
        slice_subrange(body, n, n)
    };
    assert(whole@ =~= body@.take(k as int));
    assert(fraction@ =~= fraction_after(body@, k as int));
    let fraction_end = leading_digits(fraction);
    if fraction_end < fraction.len() || n < 2 && k < n || n == 0 {
        proof {
            assert forall|c: int| !splits_at(body@, c) by {
                if splits_at(body@, c) {
                    if c < k {
                        assert(is_digit(body@.take(k as int)[c]));
                    } else if c > k {
                        assert(is_digit(body@.take(c)[k as int]));
                    } else if fraction_end < fraction.len() {
                        assert(is_digit(body@.skip(k + 1)[fraction_end as int]));
                    }
                }
            }
        }
        return None;
    }
    proof {
        assert(fraction@.take(fraction_end as int) =~= fraction@);
        assert(splits_at(body@, k as int));
        let chosen = choose|c: int| splits_at(body@, c);
        lemma_split_is_unique(body@, chosen, k as int);
    }
    let d0 = fraction_digit_at(fraction, 0);
    let d1 = fraction_digit_at(fraction, 1);
    let d2 = fraction_digit_at(fraction, 2);
    let d3 = fraction_digit_at(fraction, 3);
    match digits_to_number(whole, WHOLE_MAX) {
        Some(units) => {
            let m: u64 = units * SCALE + (d0 * 1000 + d1 * 100 + d2 * 10 + d3);
            if m <= MAGNITUDE_MAX {
                Some(m)
            } else {
                None
            }
        },
        None => None,
    }
}

/// Reads `text` as an amount: an optional `+` or `-`, then digits, a point
/// and digits, of which either run of digits may be missing but not both.
/// Fraction digits after the fourth are dropped.
pub fn parse_amount(text: &[u8]) -> (amount: Option<i64>)
    ensures
        amount == amount_of_text(text@),
{
    let signed = text.len() > 0 && (text[0] == '-' as u8 || text[0] == '+' as u8);
    let negative = signed && text[0] == '-' as u8;
    let body = if signed {
        slice_subrange(text, 1, text.len())
    } else {
        text
    };
    assert(body@ =~= if has_sign(text@) {
        text@.skip(1)
    } else {
        text@
    });
    match parse_magnitude(body) {
        Some(m) => {
            if negative {
                if m == MAGNITUDE_MAX {
                    Some(i64::MIN)
                } else {
                    Some(-(m as i64))
                }
            } else if m == MAGNITUDE_MAX {
                None
            } else {
                Some(m as i64)
            }
        },
        None => None,
    }
}

/// Reads the amount field of a record: a blank field stands for zero.
pub fn amount(field: &[u8]) -> (amount: Option<i64>)
    ensures
        amount == amount_of_field(field@),
{
    if field.len() == 0 {
        Some(0)
    } else {
        parse_amount(field)
    }
}

} // verus!

verus! {

/// The ASCII digit that stands for `d`.
pub open spec fn digit_byte(d: nat) -> u8 {
    ('0' as u8 + d) as u8
}

/// The decimal text of `n`, without leading zeros.
pub open spec fn number_text(n: nat) -> Seq<u8>
    decreases n,
{
    if n < 10 {
        seq![digit_byte(n)]
    } else {
        number_text(n / 10).push(digit_byte(n % 10))
    }
}

/// How many of the four fraction digits of `f` ten-thousandths are written:
/// those up to the last that is not zero.
pub open spec fn fraction_places(f: nat) -> int {
    if f % 10 != 0 {
        4
    } else if f % 100 != 0 {
        3
    } else if f % 1000 != 0 {
        2
    } else {
        1
    }
}

/// The text of `f` ten-thousandths, with `f` under one unit: nothing for
/// zero, else a point and the fraction digits without trailing zeros.
pub open spec fn fraction_text(f: nat) -> Seq<u8> {
    if f == 0 {
        Seq::empty()
    } else {
        seq!['.' as u8] + seq![
            digit_byte(f / 1000),
            digit_byte(f / 100 % 10),
            digit_byte(f / 10 % 10),
            digit_byte(f % 10),
        ].take(fraction_places(f))
    }
}

/// The ten-thousandths of `amount` without their sign.
pub open spec fn magnitude(amount: int) -> nat {
    if amount < 0 {
        (-amount) as nat
    } else {
        amount as nat
    }
}

/// The text of `amount`: a `-` where it is negative, the whole units, and
/// the fraction where there is one.
pub open spec fn amount_text(amount: int) -> Seq<u8> {
    let sign = if amount < 0 {
        seq!['-' as u8]
    } else {
        Seq::empty()
    };
    sign + number_text(magnitude(amount) / 10000) + fraction_text(magnitude(amount) % 10000)
}

/// Appends the decimal text of `n` to `out`.
pub fn push_number(out: &mut Vec<u8>, n: u64)
    ensures
        final(out)@ == old(out)@ + number_text(n as nat),
    decreases n,
{
    if n >= 10 {
        push_number(out, n / 10);
    }
    out.push('0' as u8 + (n % 10) as u8);
}

/// Appends the text of `amount` to `out`.
pub fn push_amount(out: &mut Vec<u8>, amount: i64)
    ensures
        final(out)@ == old(out)@ + amount_text(amount as int),
{
    let m: u64 = if amount < 0 {
        out.push('-' as u8);
        (-(amount + 1)) as u64 + 1
    } else {
        amount as u64
    };
    assert(m == magnitude(amount as int));
    push_number(out, m / SCALE);
    let f: u64 = m % SCALE;
    let ghost before_fraction = out@;
    if f != 0 {
        out.push('.' as u8);
        out.push('0' as u8 + (f / 1000) as u8);
        if f % 1000 != 0 {
            out.push('0' as u8 + (f / 100 % 10) as u8);
            if f % 100 != 0 {
                out.push('0' as u8 + (f / 10 % 10) as u8);
                if f % 10 != 0 {
                    out.push('0' as u8 + (f % 10) as u8);
                }
            }
        }
    }
    assert(out@ =~= before_fraction + fraction_text(f as nat));
}

/// The text of `amount` as a vector of its own.
pub fn format_amount(amount: i64) -> (text: Vec<u8>)
    ensures
        text@ == amount_text(amount as int),
{
    let mut text: Vec<u8> = Vec::new();
    push_amount(&mut text, amount);
    text
}

} // verus!

verus! {

/// The decimal text of a number is a run of at least one digit that writes
/// the number.
pub proof fn lemma_number_text_writes_the_number(n: nat)
    ensures
        number_text(n).len() >= 1,
        all_digits(number_text(n)),
        digits_value(number_text(n)) == n,
    decreases n,
{
    let text = number_text(n);
    if n < 10 {
        assert(text.drop_last() =~= Seq::<u8>::empty());
        assert(digits_value(text.drop_last()) == 0);
    } else {
        lemma_number_text_writes_the_number(n / 10);
        assert(text.drop_last() =~= number_text(n / 10));
        assert(text.last() == digit_byte(n % 10));
        assert forall|i: int| 0 <= i < text.len() implies is_digit(#[trigger] text[i]) by {
            if i < text.len() - 1 {
                assert(text[i] == number_text(n / 10)[i]);
            }
        }
    }
}

/// The four decimal digits of a number under ten thousand.
proof fn lemma_four_digits(f: nat)
    requires
        f < 10000,
    ensures
        f == (f / 1000) * 1000 + (f / 100 % 10) * 100 + (f / 10 % 10) * 10 + f % 10,
        f / 1000 <= 9,
        f % 100 == (f / 10 % 10) * 10 + f % 10,
        f % 1000 == (f / 100 % 10) * 100 + (f / 10 % 10) * 10 + f % 10,
{
    let v = f as u32;
    assert(v < 10000 ==> v == (v / 1000) * 1000 + (v / 100 % 10) * 100 + (v / 10 % 10) * 10 + v
        % 10 && v / 1000 <= 9 && v % 100 == (v / 10 % 10) * 10 + v % 10 && v % 1000 == (v / 100
        % 10) * 100 + (v / 10 % 10) * 10 + v % 10) by (bit_vector);
}

/// The fraction text of `f` ten-thousandths, with `f` under one unit and not
/// zero, is a point and digits that stand for `f`.
proof fn lemma_fraction_text_writes_the_fraction(f: nat)
    requires
        0 < f < 10000,
    ensures
        fraction_text(f).len() >= 2,
        fraction_text(f)[0] == '.' as u8,
        all_digits(fraction_text(f).skip(1)),
        fraction_value(fraction_text(f).skip(1)) == f,
{
    lemma_four_digits(f);
    let d0 = f / 1000;
    let d1 = f / 100 % 10;
    let d2 = f / 10 % 10;
    let d3 = f % 10;
    let digits = seq![digit_byte(d0), digit_byte(d1), digit_byte(d2), digit_byte(d3)];
    let places = fraction_places(f);
    let shown = digits.take(places);
    assert(fraction_text(f).skip(1) =~= shown);
    assert(shown.len() == places);
    assert(digit_value(digit_byte(d0)) == d0);
    assert(digit_value(digit_byte(d1)) == d1);
    assert(digit_value(digit_byte(d2)) == d2);
    assert(digit_value(digit_byte(d3)) == d3);
    assert(fraction_digit(shown, 0) == d0);
    assert(fraction_digit(shown, 1) == d1);
    assert(fraction_digit(shown, 2) == d2);
    assert(fraction_digit(shown, 3) == d3);
}

/// The text of an amount reads back as the amount.
pub proof fn lemma_amount_text_reads_back(amount: i64)
    ensures
        amount_of_text(amount_text(amount as int)) == Some(amount),
{
    let m = magnitude(amount as int);
    let whole = number_text(m / 10000);
    let fraction = fraction_text(m % 10000);
    let text = amount_text(amount as int);
    lemma_number_text_writes_the_number(m / 10000);
    assert(is_digit(whole[0]));
    let body = whole + fraction;
    if amount < 0 {
        assert(text =~= seq!['-' as u8] + body);
        assert(text[0] == '-' as u8);
        assert(text.skip(1) =~= body);
    } else {
        assert(text =~= body);
        assert(text[0] == whole[0]);
    }
    let k = whole.len() as int;
    assert(body.take(k) =~= whole);
    if m % 10000 == 0 {
        assert(body =~= whole);
        assert(fraction_after(body, k) =~= Seq::<u8>::empty());
    } else {
        lemma_fraction_text_writes_the_fraction(m % 10000);
        assert(body[k] == fraction[0]);
        assert(body.skip(k + 1) =~= fraction.skip(1));
    }
    assert(splits_at(body, k));
    lemma_split_is_unique(body, choose|c: int| splits_at(body, c), k);
    assert(magnitude_at(body, k) == m);
}

} // verus!
