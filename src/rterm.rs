use vstd::prelude::*;

verus! {

/// `val`, brought into the range from `min` to `max`.
pub fn clamp(val: u16, min: u16, max: u16) -> (r: u16)
    ensures
        r == if val < min {
            min
        } else if val > max {
            max
        } else {
            val
        },
{
    if val < min {
        return min;
    }
    if val > max {
        return max;
    }
    val
}

} // verus!
