//! Lists.
use vstd::prelude::*;

verus! {

/// A copy of a list.
pub fn copied<T: Copy>(list: &Vec<T>) -> (r: Vec<T>)
    ensures
        r@ == list@,
{
    let mut copy: Vec<T> = Vec::new();
    let mut i: usize = 0;
    while i < list.len()
        invariant
            i <= list.len(),
            copy@ == list@.subrange(0, i as int),
        decreases list.len() - i,
    {
        copy.push(list[i]);
        i = i + 1;
        assert(copy@ =~= list@.subrange(0, i as int));
    }
    assert(copy@ =~= list@);
    copy
}

} // verus!
