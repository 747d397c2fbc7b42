//! A named holder for a value a caller hands to the ring buffers. The
//! verified buffers own plain byte vectors, so the holder carries no
//! alignment demand of its own; it keeps the shape callers already use.

use vstd::prelude::*;

verus! {

pub struct Align16<T> {
    pub aligned: T,
}

impl<T> Align16<T> {
    pub fn new(aligned: T) -> (r: Align16<T>)
        ensures
            r.aligned == aligned,
    {
        Align16::<T> { aligned }
    }
}

} // verus!
