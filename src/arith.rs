//! Integer arithmetic of the generated code: checked operations that raise an exception
//! on overflow, wrapping operations that never raise, and operations that report
//! overflow as a flag beside the truncated result.
use vstd::prelude::*;
use crate::layout::IntWidth;

verus! {

/// A failure raised by generated code, carried along the unwind path to the host.
#[derive(Clone, Copy, Debug, PartialEq, Eq)]
pub enum Exception {
    /// An integer operation overflowed its width.
    Overflow,
    /// A runtime error, such as a failed pattern match, with the index of its message in
    /// the module's message table.
    RuntimeError(u64),
}

impl IntWidth {
    /// Number of bits.
    pub open spec fn bits(self) -> nat {
        8 * self.spec_bytes()
    }

    /// Smallest value of a signed integer of this width.
    pub open spec fn min_value(self) -> int {
        match self {
            IntWidth::I8 => -0x80,
            IntWidth::I16 => -0x8000,
            IntWidth::I32 => -0x8000_0000,
            IntWidth::I64 => -0x8000_0000_0000_0000,
            IntWidth::I128 => -0x8000_0000_0000_0000_0000_0000_0000_0000,
        }
    }

    /// Largest value of a signed integer of this width.
    pub open spec fn max_value(self) -> int {
        -self.min_value() - 1
    }

    /// Number of distinct values of this width.
    pub open spec fn modulus(self) -> int {
        -2 * self.min_value()
    }

    /// Whether `x` is a value of this width.
    pub open spec fn holds(self, x: int) -> bool {
        self.min_value() <= x <= self.max_value()
    }

    /// The two's-complement truncation of `x` to this width.
    pub open spec fn wrap(self, x: int) -> int {
        (x - self.min_value()) % self.modulus() + self.min_value()
    }
}

/// Operands of the integer operations: any width but 128 bits, values held in `i64`.
pub open spec fn word_width(w: IntWidth) -> bool {
    w != IntWidth::I128
}

fn min_of(w: IntWidth) -> (r: i128)
    requires
        word_width(w),
    ensures
        r == w.min_value(),
{
    match w {
        IntWidth::I8 => -0x80,
        IntWidth::I16 => -0x8000,
        IntWidth::I32 => -0x8000_0000,
        _ => -0x8000_0000_0000_0000,
    }
}

/// Truncates `x`, which lies within one modulus of the range of `w`, to `w`.
fn wrap_near(w: IntWidth, x: i128) -> (r: i64)
    requires
        word_width(w),
        2 * w.min_value() <= x <= 2 * w.max_value() + 1,
    ensures
        r == w.wrap(x as int),
        w.holds(r as int),
{
    let min = min_of(w);
    let m: i128 = -2 * min;
    let max = -min - 1;
    let y: i128 = if x > max {
        x - m
    } else if x < min {
        x + m
    } else {
        x
    };
    assert(y == w.wrap(x as int)) by {
        if x > max {
            assert(x - min == 1 * m + (y - min));
            vstd::arithmetic::div_mod::lemma_fundamental_div_mod_converse(x - min, m as int, 1, y - min);
        } else if x < min {
            assert(x - min == (-1) * m + (y - min));
            vstd::arithmetic::div_mod::lemma_fundamental_div_mod_converse(x - min, m as int, -1, y - min);
        } else {
            assert(x - min == 0 * m + (y - min));
            vstd::arithmetic::div_mod::lemma_fundamental_div_mod_converse(x - min, m as int, 0, y - min);
        }
    }
    assert(min <= y <= max);
    y as i64
}

/// Adds two integers of width `w`; a sum out of range raises an overflow exception.
pub fn num_add_checked(w: IntWidth, a: i64, b: i64) -> (r: Result<i64, Exception>)
    requires
        word_width(w),
        w.holds(a as int),
        w.holds(b as int),
    ensures
        w.holds(a + b) ==> r == Ok::<i64, Exception>((a + b) as i64),
        !w.holds(a + b) ==> r == Err::<i64, Exception>(Exception::Overflow),
{
    let x = a as i128 + b as i128;
    let min = min_of(w);
    if x < min || x > -min - 1 {
        Err(Exception::Overflow)
    } else {
        Ok(x as i64)
    }
}

/// Adds two integers of width `w`, wrapping around in two's complement; never raises.
pub fn num_add_wrap(w: IntWidth, a: i64, b: i64) -> (r: i64)
    requires
        word_width(w),
        w.holds(a as int),
        w.holds(b as int),
    ensures
        r == w.wrap(a + b),
        w.holds(r as int),
{
    wrap_near(w, a as i128 + b as i128)
}

/// Adds two integers of width `w`, returning the wrapped sum and whether it overflowed.
pub fn num_add_with_overflow(w: IntWidth, a: i64, b: i64) -> (r: (i64, bool))
    requires
        word_width(w),
        w.holds(a as int),
        w.holds(b as int),
    ensures
        r.0 == w.wrap(a + b),
        r.1 == !w.holds(a + b),
{
    let x = a as i128 + b as i128;
    let min = min_of(w);
    (wrap_near(w, x), x < min || x > -min - 1)
}

/// Subtracts two integers of width `w`; a difference out of range raises an overflow
/// exception.
pub fn num_sub_checked(w: IntWidth, a: i64, b: i64) -> (r: Result<i64, Exception>)
    requires
        word_width(w),
        w.holds(a as int),
        w.holds(b as int),
    ensures
        w.holds(a - b) ==> r == Ok::<i64, Exception>((a - b) as i64),
        !w.holds(a - b) ==> r == Err::<i64, Exception>(Exception::Overflow),
{
    let x = a as i128 - b as i128;
    let min = min_of(w);
    if x < min || x > -min - 1 {
        Err(Exception::Overflow)
    } else {
        Ok(x as i64)
    }
}

/// Subtracts two integers of width `w`, wrapping around in two's complement; never
/// raises.
pub fn num_sub_wrap(w: IntWidth, a: i64, b: i64) -> (r: i64)
    requires
        word_width(w),
        w.holds(a as int),
        w.holds(b as int),
    ensures
        r == w.wrap(a - b),
        w.holds(r as int),
{
    wrap_near(w, a as i128 - b as i128)
}

/// Subtracts two integers of width `w`, returning the wrapped difference and whether it
/// overflowed.
pub fn num_sub_with_overflow(w: IntWidth, a: i64, b: i64) -> (r: (i64, bool))
    requires
        word_width(w),
        w.holds(a as int),
        w.holds(b as int),
    ensures
        r.0 == w.wrap(a - b),
        r.1 == !w.holds(a - b),
{
    let x = a as i128 - b as i128;
    let min = min_of(w);
    (wrap_near(w, x), x < min || x > -min - 1)
}

/// A sum beyond the signed range of the width raises an overflow exception under the
/// checked add, while the wrapping add of the same operands returns the sum less one
/// modulus, and the flagged add reports the overflow beside that same value.
pub proof fn lemma_add_overflow(w: IntWidth, a: i64, b: i64)
    requires
        word_width(w),
        w.holds(a as int),
        w.holds(b as int),
        a + b > w.max_value(),
    ensures
        w.wrap(a + b) == a + b - w.modulus(),
        w.holds(w.wrap(a + b)),
{
    let min = w.min_value();
    let m = w.modulus();
    assert(a + b - min == 1 * m + (a + b - m - min));
    vstd::arithmetic::div_mod::lemma_fundamental_div_mod_converse(a + b - min, m, 1, a + b - m - min);
}

} // verus!
