use vstd::prelude::*;

verus! {

/// Splits `values` into two disjoint mutable halves at `mid`, or at its end when `mid`
/// lies past it; writes through the halves land in `values`.
pub fn split_at_mut(values: &mut [i32], mid: usize) -> (r: (&mut [i32], &mut [i32]))
    ensures
        ({
            let m = if mid < old(values)@.len() { mid as int } else { old(values)@.len() as int };
            &&& r.0@ == old(values)@.subrange(0, m)
            &&& r.1@ == old(values)@.subrange(m, old(values)@.len() as int)
        }),
        final(values)@ == final(r.0)@ + final(r.1)@,
{
    let len = values.len();
    let mid = if mid < len { mid } else { len };
    values.split_at_mut(mid)
}

} // verus!
