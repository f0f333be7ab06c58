use vstd::prelude::*;

verus! {

/// Sum of two integers; the sum must fit in an `i32`.
pub fn add(a: i32, b: i32) -> (r: i32)
    requires
        i32::MIN <= a + b <= i32::MAX,
    ensures
        r == a + b,
{
    a + b
}

/// Difference of two integers; the difference must fit in an `i32`.
pub fn sub(a: i32, b: i32) -> (r: i32)
    requires
        i32::MIN <= a - b <= i32::MAX,
    ensures
        r == a - b,
{
    a - b
}

/// Product of two integers; the product must fit in an `i32`.
pub fn mult(a: i32, b: i32) -> (r: i32)
    requires
        i32::MIN <= a * b <= i32::MAX,
    ensures
        r == a * b,
{
    a * b
}

/// A quotient `a / b` to three decimals, truncated: its whole part and its
/// thousandths. `None` when `b` is zero.
///
/// The divisor is read as an unsigned 128-bit number (a negative `b` becomes
/// `2^128 + b`); a negative dividend is left out when `b` is not zero, as
/// its scaled value would not fit.
pub fn divi(a: i32, b: i32) -> (r: Option<(u128, u128)>)
    requires
        b != 0 ==> a >= 0,
    ensures
        b == 0 <==> r is None,
        r matches Some((whole, thousandths)) ==> {
            let q = (a as int * 1000) / unsigned_divisor(b);
            &&& whole == q / 1000
            &&& thousandths == q % 1000
        },
{
    if b != 0 {
        let a_mul = (a as u128) * 1000;
        let d: u128 = if b > 0 {
            b as u128
        } else {
            u128::MAX - ((-(b as i128) - 1) as u128)
        };
        let div = a_mul / d;
        Some((div / 1000, div % 1000))
    } else {
        None
    }
}

/// A divisor as `divi` reads it: its two's-complement bits as an unsigned
/// 128-bit number.
pub open spec fn unsigned_divisor(b: i32) -> int {
    if b >= 0 {
        b as int
    } else {
        0x1_0000_0000_0000_0000_0000_0000_0000_0000 + b
    }
}

} // verus!
