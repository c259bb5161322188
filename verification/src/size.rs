//! Writing byte counts.
//!
//! A size is shown in a bracketed cell, either as a plain byte count or
//! scaled to a binary unit. All arithmetic is exact integer arithmetic on the
//! quotient `num / den`.

use vstd::prelude::*;
use vstd::arithmetic::div_mod::lemma_multiply_divide_lt;
use crate::text::{decimal, digit, digit_char, pad_left, push_decimal, push_padded};

verus! {

/// Threshold of the unit written `KB`.
pub const KB_SIZE: u64 = 0x400;

/// Threshold of the unit written `MB`.
pub const MB_SIZE: u64 = 0x10_0000;

/// Threshold of the unit written `GB`.
pub const GB_SIZE: u64 = 0x4000_0000;

/// Threshold of the unit written `TB`.
pub const TB_SIZE: u64 = 0x100_0000_0000;

/// Threshold of the unit written `EB`.
pub const EB_SIZE: u64 = 0x4_0000_0000_0000;

/// Threshold of the unit written `PB`.
pub const PB_SIZE: u64 = 0x1000_0000_0000_0000;

/// Width of the cell's content for plain byte counts.
pub const PLAIN_WIDTH: usize = 11;

/// Width of the cell's number for scaled sizes.
pub const HUMAN_WIDTH: usize = 8;

/// The divisor that a scaled size is shown by: the largest threshold that
/// `sz` is strictly greater than, or 1.
pub open spec fn unit_divisor(sz: u64) -> nat {
    if sz > PB_SIZE {
        PB_SIZE as nat
    } else if sz > EB_SIZE {
        EB_SIZE as nat
    } else if sz > TB_SIZE {
        TB_SIZE as nat
    } else if sz > GB_SIZE {
        GB_SIZE as nat
    } else if sz > MB_SIZE {
        MB_SIZE as nat
    } else if sz > KB_SIZE {
        KB_SIZE as nat
    } else {
        1
    }
}

/// The suffix that goes with `unit_divisor(sz)`.
pub open spec fn unit_label(sz: u64) -> Seq<char> {
    if sz > PB_SIZE {
        seq!['P', 'B']
    } else if sz > EB_SIZE {
        seq!['E', 'B']
    } else if sz > TB_SIZE {
        seq!['T', 'B']
    } else if sz > GB_SIZE {
        seq!['G', 'B']
    } else if sz > MB_SIZE {
        seq!['M', 'B']
    } else if sz > KB_SIZE {
        seq!['K', 'B']
    } else {
        Seq::empty()
    }
}

/// `num / den` rounded to the nearest integer, a tie going to the even one.
pub open spec fn rounded(num: nat, den: nat) -> nat
    recommends
        den > 0,
{
    let q = num / den;
    let r = num % den;
    if 2 * r > den || (2 * r == den && q % 2 == 1) {
        q + 1
    } else {
        q
    }
}

/// `num / den` in positional notation: without decimals where the quotient is
/// a whole number, else rounded to two decimals.
pub open spec fn fixed_text(num: nat, den: nat) -> Seq<char>
    recommends
        den > 0,
{
    if num % den == 0 {
        decimal(num / den)
    } else {
        let h = rounded(num * 100, den);
        decimal(h / 100) + seq!['.', digit_char((h / 10) % 10), digit_char(h % 10)]
    }
}

/// `den` times the largest power of ten that keeps the product at or below
/// `num`; `den` itself where `num < 10 * den`.
pub open spec fn leading_scale(num: nat, den: nat) -> nat
    recommends
        den > 0,
    decreases num - den,
{
    if den == 0 || num < 10 * den {
        den
    } else {
        leading_scale(num, 10 * den)
    }
}

/// The power of ten in `leading_scale(num, den)`.
pub open spec fn leading_exponent(num: nat, den: nat) -> nat
    recommends
        den > 0,
    decreases num - den,
{
    if den == 0 || num < 10 * den {
        0
    } else {
        1 + leading_exponent(num, 10 * den)
    }
}

/// `num / den` in scientific notation with four decimals: one digit, a
/// point, four digits, `E` and the decimal exponent.
pub open spec fn scientific_text(num: nat, den: nat) -> Seq<char>
    recommends
        den > 0,
{
    let m = rounded(num * 10000, leading_scale(num, den));
    let e = leading_exponent(num, den);
    let mantissa = if m >= 100000 {
        m / 10
    } else {
        m
    };
    let exponent = if m >= 100000 {
        e + 1
    } else {
        e
    };
    seq![
        digit_char((mantissa / 10000) % 10),
        '.',
        digit_char((mantissa / 1000) % 10),
        digit_char((mantissa / 100) % 10),
        digit_char((mantissa / 10) % 10),
        digit_char(mantissa % 10),
        'E',
    ] + decimal(exponent)
}

/// The cell that shows a size of `sz` bytes.
///
/// The content is `fixed_text` of the size over its divisor, followed by the
/// unit's suffix and right-aligned to the cell's width. Where that is wider
/// than the cell, the number is written by `scientific_text` instead. In
/// plain mode the divisor is 1 and there is no suffix.
pub open spec fn size_text(sz: u64, human: bool) -> Seq<char> {
    let den = if human {
        unit_divisor(sz)
    } else {
        1
    };
    let unit = if human {
        unit_label(sz)
    } else {
        Seq::empty()
    };
    let width = if human {
        HUMAN_WIDTH as nat
    } else {
        PLAIN_WIDTH as nat
    };
    let plain = fixed_text(sz as nat, den) + unit;
    let cell = if plain.len() <= width {
        pad_left(plain, width)
    } else {
        pad_left(scientific_text(sz as nat, den), width) + unit
    };
    seq![' ', '['] + cell + seq![']']
}

/// A size is scaled to a unit only when it is strictly greater than the
/// unit's threshold: a size that is exactly a threshold is shown in the unit
/// below, and a size of at most 1024 in plain bytes.
pub proof fn lemma_thresholds_are_strict(sz: u64)
    ensures
        unit_divisor(sz) <= sz || sz == 0,
        unit_divisor(sz) > 1 ==> sz > unit_divisor(sz),
        sz <= KB_SIZE <==> unit_divisor(sz) == 1,
        sz <= KB_SIZE <==> unit_label(sz) == Seq::<char>::empty(),
        unit_divisor(sz) == KB_SIZE <==> KB_SIZE < sz <= MB_SIZE,
        unit_divisor(sz) == MB_SIZE <==> MB_SIZE < sz <= GB_SIZE,
        unit_divisor(sz) == GB_SIZE <==> GB_SIZE < sz <= TB_SIZE,
        unit_divisor(sz) == TB_SIZE <==> TB_SIZE < sz <= EB_SIZE,
        unit_divisor(sz) == EB_SIZE <==> EB_SIZE < sz <= PB_SIZE,
        unit_divisor(sz) == PB_SIZE <==> PB_SIZE < sz,
{
    if sz > KB_SIZE {
        assert(unit_label(sz).len() == 2);
    }
}

/// The `k`th power of ten.
pub open spec fn pow10(k: nat) -> nat
    decreases k,
{
    if k == 0 {
        1
    } else {
        10 * pow10((k - 1) as nat)
    }
}

/// A quotient below the `b`th power of ten has an exponent below `b`.
pub proof fn lemma_leading_exponent_bound(num: nat, den: nat, b: nat)
    requires
        den > 0,
        b > 0,
        num < den * pow10(b),
    ensures
        leading_exponent(num, den) < b,
    decreases b,
{
    if num >= 10 * den {
        assert(den * pow10(b) == (10 * den) * pow10((b - 1) as nat)) by (nonlinear_arith)
            requires
                b > 0,
                pow10(b) == 10 * pow10((b - 1) as nat),
        ;
        if b == 1 {
            assert((10 * den) * pow10(0) == 10 * den) by (nonlinear_arith)
                requires
                    pow10(0) == 1,
            ;
        } else {
            lemma_leading_exponent_bound(num, 10 * den, (b - 1) as nat);
        }
    }
}

/// A numeral below the `b`th power of ten has at most `b` digits, and at
/// least one.
pub proof fn lemma_decimal_len(n: nat, b: nat)
    requires
        b > 0,
        n < pow10(b),
    ensures
        1 <= decimal(n).len() <= b,
    decreases b,
{
    if n >= 10 {
        if b == 1 {
            assert(pow10(1) == 10) by {
                reveal_with_fuel(pow10, 2);
            }
        } else {
            lemma_decimal_len(n / 10, (b - 1) as nat);
        }
    }
}

/// In plain mode every cell is equally wide: a blank, the brackets and
/// eleven characters between them, whatever the size.
pub proof fn lemma_plain_cell_width(sz: u64)
    ensures
        size_text(sz, false).len() == PLAIN_WIDTH + 3,
{
    let plain = fixed_text(sz as nat, 1) + Seq::<char>::empty();
    if plain.len() > PLAIN_WIDTH {
        assert(pow10(20) == 100_000_000_000_000_000_000nat) by {
            reveal_with_fuel(pow10, 21);
        }
        lemma_leading_exponent_bound(sz as nat, 1, 20);
        let m = rounded(sz as nat * 10000, leading_scale(sz as nat, 1));
        let e = leading_exponent(sz as nat, 1);
        let exponent = if m >= 100000 {
            e + 1
        } else {
            e
        };
        assert(pow10(2) == 100) by {
            reveal_with_fuel(pow10, 3);
        }
        lemma_decimal_len(exponent, 2);
    }
}

/// In scaled mode a cell is eleven characters wide wherever the number and
/// its unit fit into eight, and thirteen where they do not: the number in
/// scientific notation takes eight, and the unit follows it.
pub proof fn lemma_human_cell_width(sz: u64)
    ensures
        (fixed_text(sz as nat, unit_divisor(sz)) + unit_label(sz)).len() <= HUMAN_WIDTH
            ==> size_text(sz, true).len() == HUMAN_WIDTH + 3,
        (fixed_text(sz as nat, unit_divisor(sz)) + unit_label(sz)).len() > HUMAN_WIDTH
            ==> size_text(sz, true).len() == HUMAN_WIDTH + 3 + unit_label(sz).len(),
{
    let den = unit_divisor(sz);
    let plain = fixed_text(sz as nat, den) + unit_label(sz);
    if plain.len() > HUMAN_WIDTH {
        assert(pow10(4) == 10000) by {
            reveal_with_fuel(pow10, 5);
        }
        assert(sz < den * 10000);
        lemma_leading_exponent_bound(sz as nat, den, 4);
        let m = rounded(sz as nat * 10000, leading_scale(sz as nat, den));
        let e = leading_exponent(sz as nat, den);
        let exponent = if m >= 100000 {
            e + 1
        } else {
            e
        };
        assert(pow10(1) == 10) by {
            reveal_with_fuel(pow10, 2);
        }
        lemma_decimal_len(exponent, 1);
    }
}

/// The divisor and suffix for a scaled size.
pub fn human_unit(sz: u64) -> (unit: (u64, &'static str))
    ensures
        unit.0 == unit_divisor(sz),
        unit.1@ == unit_label(sz),
{
    proof {
        reveal_strlit("PB");
        reveal_strlit("EB");
        reveal_strlit("TB");
        reveal_strlit("GB");
        reveal_strlit("MB");
        reveal_strlit("KB");
        reveal_strlit("");
    }
    let unit = if sz > PB_SIZE {
        (PB_SIZE, "PB")
    } else if sz > EB_SIZE {
        (EB_SIZE, "EB")
    } else if sz > TB_SIZE {
        (TB_SIZE, "TB")
    } else if sz > GB_SIZE {
        (GB_SIZE, "GB")
    } else if sz > MB_SIZE {
        (MB_SIZE, "MB")
    } else if sz > KB_SIZE {
        (KB_SIZE, "KB")
    } else {
        (1, "")
    };
    unit
}

/// Rounds `num / den` to the nearest integer, a tie going to the even one.
pub fn round_half_even(num: u128, den: u128) -> (r: u128)
    requires
        den > 0,
        num < u128::MAX,
    ensures
        r == rounded(num as nat, den as nat),
{
    let q = num / den;
    let r = num % den;
    if r > den - r || (r == den - r && q % 2 == 1) {
        q + 1
    } else {
        q
    }
}

/// Writes `num / den` in positional notation.
pub fn fixed(num: u64, den: u64) -> (out: String)
    requires
        den > 0,
    ensures
        out@ == fixed_text(num as nat, den as nat),
{
    let mut out = String::new();
    if num % den == 0 {
        push_decimal(&mut out, (num / den) as u128);
    } else {
        let h = round_half_even((num as u128) * 100, den as u128);
        push_decimal(&mut out, h / 100);
        out.push('.');
        out.push(digit(((h / 10) % 10) as u8));
        out.push(digit((h % 10) as u8));
    }
    out
}

/// Writes `num / den` in scientific notation with four decimals.
pub fn scientific(num: u64, den: u64) -> (out: String)
    requires
        den > 0,
    ensures
        out@ == scientific_text(num as nat, den as nat),
{
    let n = num as u128;
    let mut scale: u128 = den as u128;
    let mut e: u128 = 0;
    while n >= 10 * scale
        invariant
            0 < scale,
            scale <= n || scale == den,
            n == num,
            e < scale,
            leading_scale(n as nat, den as nat) == leading_scale(n as nat, scale as nat),
            leading_exponent(n as nat, den as nat) == e + leading_exponent(n as nat, scale as nat),
        decreases n - scale,
    {
        scale = scale * 10;
        e = e + 1;
    }
    let m = round_half_even(n * 10000, scale);
    proof {
        lemma_multiply_divide_lt((n * 10000) as int, scale as int, 100000);
    }
    let mantissa = if m >= 100000 {
        m / 10
    } else {
        m
    };
    let exponent = if m >= 100000 {
        e + 1
    } else {
        e
    };
    let mut out = String::new();
    out.push(digit(((mantissa / 10000) % 10) as u8));
    out.push('.');
    out.push(digit(((mantissa / 1000) % 10) as u8));
    out.push(digit(((mantissa / 100) % 10) as u8));
    out.push(digit(((mantissa / 10) % 10) as u8));
    out.push(digit((mantissa % 10) as u8));
    out.push('E');
    push_decimal(&mut out, exponent);
    out
}

/// Writes the cell that shows a size of `sz` bytes: scaled to a unit where
/// `human` is set, as a plain byte count where it is not.
pub fn size_cell(sz: u64, human: bool) -> (out: String)
    ensures
        out@ == size_text(sz, human),
{
    let (den, unit) = if human {
        human_unit(sz)
    } else {
        proof {
            reveal_strlit("");
        }
        (1, "")
    };
    let width = if human {
        HUMAN_WIDTH
    } else {
        PLAIN_WIDTH
    };
    let mut plain = fixed(sz, den);
    plain.append(unit);
    let mut out = String::new();
    out.push(' ');
    out.push('[');
    if plain.as_str().unicode_len() <= width {
        push_padded(&mut out, plain.as_str(), width);
    } else {
        let number = scientific(sz, den);
        push_padded(&mut out, number.as_str(), width);
        out.append(unit);
    }
    out.push(']');
    out
}

} // verus!
