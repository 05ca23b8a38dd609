//! A plain arena of objects: allocation appends, and an index names the
//! object for good.

use vstd::prelude::*;

use crate::value::Obj;

verus! {

/// Owns the objects allocated so far, in allocation order.
pub struct ObjHeap {
    objects: Vec<Obj>,
}

/// The position of an object in an `ObjHeap`.
#[derive(Debug, Clone, Copy, PartialEq, Eq, Structural)]
pub struct ObjHeapIndex(pub usize);

impl ObjHeap {
    /// The objects, in allocation order.
    pub closed spec fn spec_objects(&self) -> Seq<Obj> {
        self.objects@
    }

    /// An arena with no object.
    pub fn new() -> (res: Self)
        ensures
            res.spec_objects() == Seq::<Obj>::empty(),
    {
        ObjHeap { objects: Vec::new() }
    }

    /// Stores `obj` after the others and returns its index.
    pub fn allocate(&mut self, obj: Obj) -> (res: ObjHeapIndex)
        ensures
            final(self).spec_objects() == old(self).spec_objects().push(obj),
            res.0 == old(self).spec_objects().len(),
    {
        self.objects.push(obj);
        ObjHeapIndex(self.objects.len() - 1)
    }

    /// The object at `idx`, which must have been allocated.
    pub fn get_unchecked(&self, idx: ObjHeapIndex) -> (res: &Obj)
        requires
            idx.0 < self.spec_objects().len(),
        ensures
            *res == self.spec_objects()[idx.0 as int],
    {
        &self.objects[idx.0]
    }
}

} // verus!
