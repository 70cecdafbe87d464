//! The hidden-layer activation on IEEE-754 single-precision bit patterns.
use vstd::prelude::*;

verus! {

/// The sign bit is set (a negative number, negative zero or a NaN with its sign set).
pub open spec fn sign_bit(x: u32) -> bool {
    x >= 0x8000_0000
}

/// All exponent bits set and a non-zero mantissa.
pub open spec fn is_nan(x: u32) -> bool {
    x % 0x8000_0000 > 0x7f80_0000
}

/// `max(x, 0)`: positive zero for a negative value, a negative zero or a NaN;
/// the value itself otherwise.
pub open spec fn relu_spec(x: u32) -> u32 {
    if sign_bit(x) || is_nan(x) {
        0
    } else {
        x
    }
}

/// `max(x, 0)` on the bit pattern of a single-precision float.
pub fn relu(x: u32) -> (r: u32)
    ensures
        r == relu_spec(x),
        !sign_bit(r),
        !is_nan(r),
        sign_bit(x) ==> r == 0,
{
    let magnitude: u32 = if x >= 0x8000_0000 {
        x - 0x8000_0000
    } else {
        x
    };
    if x >= 0x8000_0000 || magnitude > 0x7f80_0000 {
        0
    } else {
        x
    }
}

/// Applies `relu` to every entry, in place.
pub fn relu_in_place(v: &mut Vec<u32>)
    ensures
        final(v)@.len() == old(v)@.len(),
        forall|i: int| 0 <= i < old(v)@.len() ==> #[trigger] final(v)@[i] == relu_spec(old(v)@[i]),
        forall|i: int| 0 <= i < old(v)@.len() && sign_bit(old(v)@[i]) ==> #[trigger] final(v)@[i] == 0,
{
    let n = v.len();
    let mut i: usize = 0;
    while i < n
        invariant
            n == old(v)@.len(),
            v@.len() == n,
            i <= n,
            forall|j: int| 0 <= j < i ==> #[trigger] v@[j] == relu_spec(old(v)@[j]),
            forall|j: int| i <= j < n ==> #[trigger] v@[j] == old(v)@[j],
        decreases n - i,
    {
        let x = v[i];
        v.set(i, relu(x));
        i += 1;
    }
}

} // verus!
