use vstd::prelude::*;

verus! {

/// A totally ordered stand-in for a floating-point reading.
///
/// `Ordered(k)` stands for a number, and the keys of two numbers compare as
/// the numbers do (both zeros share the key 0). `Unordered` stands for a
/// reading that compares false with everything (not a number).
#[derive(Clone, Copy, Debug, PartialEq, Eq, Structural)]
pub enum OrderKey {
    Ordered(i64),
    Unordered,
}

/// `a >= b` on the readings the keys stand for.
pub open spec fn at_least(a: OrderKey, b: OrderKey) -> bool {
    match (a, b) {
        (OrderKey::Ordered(x), OrderKey::Ordered(y)) => x >= y,
        _ => false,
    }
}

/// `a == 0.0` on the reading the key stands for.
pub open spec fn is_zero(a: OrderKey) -> bool {
    a == OrderKey::Ordered(0)
}

/// The key of the reading 0.0.
pub open spec fn zero_key() -> OrderKey {
    OrderKey::Ordered(0)
}

/// Whether the reading of `a` is at least that of `b`.
pub fn key_at_least(a: OrderKey, b: OrderKey) -> (r: bool)
    ensures
        r == at_least(a, b),
{
    match (a, b) {
        (OrderKey::Ordered(x), OrderKey::Ordered(y)) => x >= y,
        _ => false,
    }
}

/// Whether the reading of `a` is zero.
pub fn key_is_zero(a: OrderKey) -> (r: bool)
    ensures
        r == is_zero(a),
{
    match a {
        OrderKey::Ordered(x) => x == 0,
        OrderKey::Unordered => false,
    }
}

} // verus!
