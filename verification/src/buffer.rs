//! Growing a buffer by the contents of a slice.

use vstd::prelude::*;

verus! {

/// Appends a copy of every item of `items` to `buffer`, in order.
pub fn append<T: Copy>(buffer: &mut Vec<T>, items: &[T])
    ensures
        final(buffer)@ == old(buffer)@ + items@,
{
    let count: usize = items.len();
    let mut i: usize = 0;
    while i < count
        invariant
            count == items@.len(),
            i <= count,
            buffer@ == old(buffer)@ + items@.take(i as int),
        decreases count - i,
    {
        buffer.push(items[i]);
        proof {
            assert(items@.take(i + 1) =~= items@.take(i as int).push(items@[i as int]));
            assert(buffer@ =~= old(buffer)@ + items@.take(i + 1));
        }
        i = i + 1;
    }
    proof {
        assert(items@.take(count as int) =~= items@);
    }
}

} // verus!
