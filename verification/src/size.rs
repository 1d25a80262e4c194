//! Byte counts written for people.
//!
//! A count is shown in the largest of five binary units that does not exceed
//! it, with two decimals: `1536` reads `1.50 KiB`. Nothing is shown as less
//! than one byte, and counts beyond the last unit stay in it. Below the last
//! unit the number stays under 1024: a count so close to the next unit that
//! its two decimals would round to `1024.00` reads `1023.99`.

use vstd::prelude::*;
use vstd::string::*;
use crate::text::{decimal, digit_char, push_decimal, push_digit};

verus! {

/// Index of the last unit, `TiB`.
pub const LAST_UNIT: usize = 4;

/// The number of bytes in one of unit `k`: 1024 to the power `k`.
pub open spec fn unit_size(k: nat) -> nat
    decreases k,
{
    if k == 0 {
        1
    } else {
        1024 * unit_size((k - 1) as nat)
    }
}

/// The count that is shown for `bytes`: an empty size is shown as one byte.
pub open spec fn shown_bytes(bytes: nat) -> nat {
    if bytes == 0 {
        1
    } else {
        bytes
    }
}

/// The unit in which `bytes` is shown: the largest one, up to the last,
/// that does not exceed the shown count.
pub open spec fn magnitude(bytes: nat) -> nat {
    let m = shown_bytes(bytes);
    if m < unit_size(1) {
        0
    } else if m < unit_size(2) {
        1
    } else if m < unit_size(3) {
        2
    } else if m < unit_size(4) {
        3
    } else {
        4
    }
}

/// `n / d` rounded to the nearest whole number, a tie going to the even one.
pub open spec fn round_half_even(n: nat, d: nat) -> nat
    recommends
        d > 0,
{
    let q = n / d;
    let r = n % d;
    if 2 * r < d {
        q
    } else if 2 * r > d {
        q + 1
    } else if q % 2 == 0 {
        q
    } else {
        q + 1
    }
}

/// The most hundredths that are shown of a unit below the last: `1023.99`.
pub const MOST_HUNDREDTHS: u64 = 102399;

/// The shown count of `bytes` in hundredths of its unit: rounded to the
/// nearest hundredth, but below the last unit never more than
/// [`MOST_HUNDREDTHS`], so that the number stays under one of the next unit.
pub open spec fn scaled_hundredths(bytes: nat) -> nat {
    let rounded = round_half_even(shown_bytes(bytes) * 100, unit_size(magnitude(bytes)));
    if magnitude(bytes) < LAST_UNIT && rounded > MOST_HUNDREDTHS {
        MOST_HUNDREDTHS as nat
    } else {
        rounded
    }
}

/// The name of unit `k`.
pub open spec fn unit_label(k: nat) -> Seq<char> {
    if k == 0 {
        "Byte"@
    } else if k == 1 {
        "KiB"@
    } else if k == 2 {
        "MiB"@
    } else if k == 3 {
        "GiB"@
    } else {
        "TiB"@
    }
}

/// The text for `bytes`: whole units, a point, two decimals, a space, the
/// unit's name.
pub open spec fn readable_size(bytes: nat) -> Seq<char> {
    let h = scaled_hundredths(bytes);
    decimal(h / 100) + seq!['.', digit_char(h % 100 / 10), digit_char(h % 10), ' '] + unit_label(
        magnitude(bytes),
    )
}

/// The sizes of the five units.
pub proof fn lemma_unit_sizes()
    ensures
        unit_size(0) == 1,
        unit_size(1) == 1024,
        unit_size(2) == 1048576,
        unit_size(3) == 1073741824,
        unit_size(4) == 1099511627776,
        unit_size(5) == 1125899906842624,
{
    reveal_with_fuel(unit_size, 6);
}

/// The unit is always one of the five, the shown count is at least one of its
/// unit, and below the last unit it is less than one of the next. The text
/// never reads less than `1.00`, and below the last unit it always reads less
/// than `1024.00`.
pub proof fn lemma_readable_size_range(bytes: nat)
    ensures
        magnitude(bytes) <= LAST_UNIT,
        unit_size(magnitude(bytes)) <= shown_bytes(bytes),
        magnitude(bytes) < LAST_UNIT ==> shown_bytes(bytes) < unit_size(magnitude(bytes) + 1),
        100 <= scaled_hundredths(bytes),
        magnitude(bytes) < LAST_UNIT ==> scaled_hundredths(bytes) < 102400,
{
    lemma_unit_sizes();
    let m = shown_bytes(bytes);
    let k = magnitude(bytes);
    let d = unit_size(k);
    lemma_round_half_even_bounds(m * 100, d, 100);
}

/// The shown count is the count rounded to the nearest hundredth of its
/// unit, wherever that is less than 1024 of the unit, and in the last unit
/// always.
pub proof fn lemma_scaled_is_rounded(bytes: nat)
    ensures
        magnitude(bytes) == LAST_UNIT || 200 * shown_bytes(bytes) < 204799 * unit_size(
            magnitude(bytes),
        ) ==> scaled_hundredths(bytes) == round_half_even(
            shown_bytes(bytes) * 100,
            unit_size(magnitude(bytes)),
        ),
{
    lemma_unit_sizes();
    let m = shown_bytes(bytes);
    let d = unit_size(magnitude(bytes));
    lemma_round_half_even_bounds(m * 100, d, 102399);
}

/// Where `round_half_even(n, d)` lies relative to a whole number `t`.
proof fn lemma_round_half_even_bounds(n: nat, d: nat, t: nat)
    requires
        d > 0,
    ensures
        n >= t * d ==> round_half_even(n, d) >= t,
        n <= t * d ==> round_half_even(n, d) <= t,
        t % 2 == 1 ==> (round_half_even(n, d) <= t <==> 2 * n < (2 * t + 1) * d),
{
    let q = n / d;
    let r = n % d;
    assert(n == q * d + r && 0 <= r < d) by (nonlinear_arith)
        requires
            d > 0,
            q == n / d,
            r == n % d,
    ;
    assert(q >= t <==> n >= t * d) by (nonlinear_arith)
        requires
            d > 0,
            n == q * d + r,
            0 <= r < d,
    ;
    assert(q + 1 <= t <==> n < t * d) by (nonlinear_arith)
        requires
            d > 0,
            n == q * d + r,
            0 <= r < d,
    ;
    assert(n <= t * d && q >= t ==> q == t && r == 0) by (nonlinear_arith)
        requires
            d > 0,
            n == q * d + r,
            0 <= r < d,
    ;
    if t % 2 == 1 {
        assert(q < t ==> 2 * n < (2 * t + 1) * d) by (nonlinear_arith)
            requires
                d > 0,
                n == q * d + r,
                0 <= r < d,
        ;
        assert(q > t ==> 2 * n >= (2 * t + 1) * d) by (nonlinear_arith)
            requires
                d > 0,
                n == q * d + r,
                0 <= r < d,
        ;
        assert(q == t ==> (2 * r < d <==> 2 * n < (2 * t + 1) * d)) by (nonlinear_arith)
            requires
                d > 0,
                n == q * d + r,
                0 <= r < d,
        ;
    }
}

/// The name of unit `unit`.
pub fn unit_name(unit: usize) -> (name: &'static str)
    requires
        unit <= LAST_UNIT,
    ensures
        name@ == unit_label(unit as nat),
{
    if unit == 0 {
        "Byte"
    } else if unit == 1 {
        "KiB"
    } else if unit == 2 {
        "MiB"
    } else if unit == 3 {
        "GiB"
    } else {
        "TiB"
    }
}

/// The unit in which `size` is shown, with the number of bytes in one of it.
pub fn unit_of(size: u64) -> (found: (usize, u64))
    ensures
        found.0 == magnitude(size as nat),
        found.1 == unit_size(magnitude(size as nat)),
{
    proof {
        lemma_unit_sizes();
    }
    let shown: u64 = if size == 0 {
        1
    } else {
        size
    };
    if shown < 1024 {
        (0, 1)
    } else if shown < 1048576 {
        (1, 1024)
    } else if shown < 1073741824 {
        (2, 1048576)
    } else if shown < 1099511627776 {
        (3, 1073741824)
    } else {
        (4, 1099511627776)
    }
}

/// The shown count of `size` in hundredths of its unit, and that unit.
///
/// The unit is one of the five. The number is never less than `1.00`, and
/// below the last unit it is always less than `1024.00`.
pub fn scaled(size: u64) -> (parts: (u64, usize))
    ensures
        parts.0 == scaled_hundredths(size as nat),
        parts.1 == magnitude(size as nat),
        parts.1 <= LAST_UNIT,
        100 <= parts.0,
        parts.1 < LAST_UNIT ==> parts.0 < 102400,
{
    let shown: u64 = if size == 0 {
        1
    } else {
        size
    };
    let (unit, divisor) = unit_of(size);
    proof {
        lemma_unit_sizes();
        lemma_readable_size_range(size as nat);
    }
    let count: u128 = shown as u128 * 100;
    let whole: u128 = count / divisor as u128;
    let rest: u128 = count % divisor as u128;
    let up: bool = 2 * rest > divisor as u128 || (2 * rest == divisor as u128 && whole % 2 == 1);
    let rounded: u64 = if up {
        (whole + 1) as u64
    } else {
        whole as u64
    };
    let hundredths: u64 = if unit < LAST_UNIT && rounded > MOST_HUNDREDTHS {
        MOST_HUNDREDTHS
    } else {
        rounded
    };
    (hundredths, unit)
}

/// Writes a byte count for people: `to_readable_size(1536)` is `1.50 KiB`.
pub fn to_readable_size(size: u64) -> (text: String)
    ensures
        text@ == readable_size(size as nat),
{
    let (hundredths, unit) = scaled(size);
    let mut text = String::new();
    push_decimal(&mut text, hundredths / 100);
    text.append(".");
    push_digit(&mut text, (hundredths % 100 / 10) as u8);
    push_digit(&mut text, (hundredths % 10) as u8);
    text.append(" ");
    text.append(unit_name(unit));
    proof {
        reveal_strlit(".");
        reveal_strlit(" ");
        let h = scaled_hundredths(size as nat);
        assert(text@ =~= decimal(h / 100) + seq![
            '.',
            digit_char(h % 100 / 10),
            digit_char(h % 10),
            ' ',
        ] + unit_label(magnitude(size as nat)));
    }
    text
}

} // verus!
