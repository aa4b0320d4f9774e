//! Integer arithmetic of the language, as Rust's checked operations define it.
use vstd::prelude::*;

verus! {

/// Division rounding toward zero.
pub open spec fn tdiv(a: int, b: int) -> int {
    let q = (if a < 0 { -a } else { a }) / (if b < 0 { -b } else { b });
    if (a < 0) == (b < 0) { q } else { -q }
}

pub open spec fn in_i64(x: int) -> bool {
    i64::MIN <= x <= i64::MAX
}

fn abs_u64(a: i64) -> (r: u64)
    ensures
        r as int == (if a < 0 { -(a as int) } else { a as int }),
{
    if a == i64::MIN {
        9223372036854775808u64
    } else if a < 0 {
        (-a) as u64
    } else {
        a as u64
    }
}

/// `a / b` rounding toward zero; `None` where Rust's division overflows
/// (`i64::MIN / -1`). Requires a nonzero divisor.
pub fn div_i64(a: i64, b: i64) -> (r: Option<i64>)
    requires
        b != 0,
    ensures
        r matches Some(q) ==> q as int == tdiv(a as int, b as int),
        r is None <==> !in_i64(tdiv(a as int, b as int)),
{
    let ua = abs_u64(a);
    let ub = abs_u64(b);
    let q = ua / ub;
    assert(q as int == (if a < 0 { -(a as int) } else { a as int }) / (if b < 0 { -(b as int) } else { b as int }));
    if (a < 0) == (b < 0) {
        if q > 9223372036854775807u64 {
            None
        } else {
            Some(q as i64)
        }
    } else {
        if q > 9223372036854775808u64 {
            None
        } else if q == 9223372036854775808u64 {
            Some(i64::MIN)
        } else {
            Some(-(q as i64))
        }
    }
}

} // verus!
