//! Typed object storage and the interning heap of the virtual machine.

use vstd::prelude::*;

use core::marker::PhantomData;

use crate::table::{key_hash, key_string, Table};
use crate::value::{hash_of_chars, hash_of_str, Obj, ObjStr, ObjType, Value};

verus! {

/// Storage that owns allocations of type `T`; objects are never moved or
/// freed, so an index stays valid once handed out.
pub struct TypedHeap<T> {
    objects: Vec<T>,
}

/// The position of an object in a [`TypedHeap`].
#[derive(Debug)]
pub struct TypedHeapIndex<T> {
    idx: usize,
    _marker: PhantomData<T>,
}

impl<T> TypedHeapIndex<T> {
    pub closed spec fn spec_index(&self) -> usize {
        self.idx
    }

    pub fn new(idx: usize) -> (res: Self)
        ensures
            res.spec_index() == idx,
    {
        Self { idx, _marker: PhantomData }
    }

    pub fn index(&self) -> (res: usize)
        ensures
            res == self.spec_index(),
    {
        self.idx
    }
}

impl<T> Clone for TypedHeapIndex<T> {
    fn clone(&self) -> (res: Self)
        ensures
            res == *self,
    {
        Self { idx: self.idx, _marker: PhantomData }
    }
}

impl<T> Copy for TypedHeapIndex<T> {

}

/// Two indices are equal when they name the same position.
impl<T> PartialEq for TypedHeapIndex<T> {
    fn eq(&self, other: &Self) -> (res: bool) {
        self.idx == other.idx
    }
}

impl<T> vstd::std_specs::cmp::PartialEqSpecImpl for TypedHeapIndex<T> {
    open spec fn obeys_eq_spec() -> bool {
        true
    }

    open spec fn eq_spec(&self, other: &Self) -> bool {
        self.spec_index() == other.spec_index()
    }
}

impl<T> TypedHeap<T> {
    pub closed spec fn spec_objects(&self) -> Seq<T> {
        self.objects@
    }

    pub fn new() -> (res: Self)
        ensures
            res.spec_objects() == Seq::<T>::empty(),
    {
        Self { objects: Vec::new() }
    }

    /// Stores `obj` at the next free position and returns that position.
    pub fn allocate(&mut self, obj: T) -> (res: TypedHeapIndex<T>)
        requires
            old(self).spec_objects().len() < usize::MAX,
        ensures
            final(self).spec_objects() == old(self).spec_objects().push(obj),
            res.spec_index() == old(self).spec_objects().len(),
    {
        self.objects.push(obj);
        TypedHeapIndex::new(self.objects.len() - 1)
    }

    pub fn len(&self) -> (res: usize)
        ensures
            res == self.spec_objects().len(),
    {
        self.objects.len()
    }

    /// The object at `idx`.
    pub fn get_unchecked(&self, idx: TypedHeapIndex<T>) -> (res: &T)
        requires
            idx.spec_index() < self.spec_objects().len(),
        ensures
            *res == self.spec_objects()[idx.spec_index() as int],
    {
        &self.objects[idx.idx]
    }
}

impl TypedHeap<Obj> {
    /// The string object at `idx`.
    pub fn get_unchecked_objstr(&self, idx: TypedHeapIndex<Obj>) -> (res: &ObjStr)
        requires
            idx.spec_index() < self.spec_objects().len(),
        ensures
            *res == self.spec_objects()[idx.spec_index() as int].spec_obj_str(),
    {
        self.get_unchecked(idx).obj_str()
    }
}

/// The objects of the virtual machine, with every string interned: a string
/// is allocated once, and allocating it again gives back the same object.
/// The most strings a heap holds: its interning table then stays far below
/// the sizes whose arithmetic could overflow.
pub open spec fn string_limit() -> nat {
    (usize::MAX / 64) as nat
}

pub struct Heap {
    objects: TypedHeap<Obj>,
    interned_strings: Table,
}

/// The contents of each string object, in allocation order.
pub open spec fn heap_strings(objects: Seq<Obj>) -> Seq<Seq<char>> {
    objects.map_values(|o: Obj| o.spec_obj_str().spec_string())
}

/// No two positions hold the same string.
pub open spec fn no_duplicates(strings: Seq<Seq<char>>) -> bool {
    forall|i: int, j: int| 0 <= i < strings.len() && 0 <= j < strings.len() && strings[i] == strings[j] ==> i == j
}

impl Heap {
    /// The string held by each object, by position.
    pub closed spec fn spec_strings(&self) -> Seq<Seq<char>> {
        heap_strings(self.objects.spec_objects())
    }

    /// The number of slots of the interning table.
    pub closed spec fn spec_table_capacity(&self) -> nat {
        self.interned_strings.spec_capacity()
    }

    pub closed spec fn spec_object_heap(&self) -> TypedHeap<Obj> {
        self.objects
    }

    /// There is one string for each object.
    pub proof fn lemma_strings_len(&self)
        ensures
            self.spec_strings().len() == self.spec_object_heap().spec_objects().len(),
    {
    }

    /// The string at position `i` is that of the object there.
    pub proof fn lemma_string_at(&self, i: int)
        requires
            0 <= i < self.spec_strings().len(),
        ensures
            self.spec_strings()[i] == self.spec_object_heap().spec_objects()[i].spec_obj_str().spec_string(),
    {
    }

    /// The number of strings allocated.
    pub fn strings_len(&self) -> (res: usize)
        ensures
            res == self.spec_strings().len(),
    {
        self.objects.len()
    }

    /// Each string object stores the FNV-1a hash of its text.
    pub proof fn lemma_stored_hash(&self, k: usize)
        requires
            self.wf(),
            k < self.spec_strings().len(),
        ensures
            self.spec_object_heap().spec_objects()[k as int].spec_obj_str().spec_hash() == hash_of_chars(self.spec_strings()[k as int]),
    {
        assert(key_hash(&self.objects, k) == hash_of_chars(key_string(&self.objects, k)));
    }

    pub closed spec fn wf(&self) -> bool {
        let objs = self.objects.spec_objects();
        &&& self.interned_strings.wf(&self.objects)
        &&& forall|k: usize| self.interned_strings.spec_map().contains_key(k) <==> k < objs.len()
        &&& forall|k: usize| #![trigger objs[k as int]] k < objs.len() ==> key_hash(&self.objects, k) == hash_of_chars(key_string(&self.objects, k))
        &&& no_duplicates(self.spec_strings())
        &&& self.interned_strings.no_tombstones()
        &&& self.interned_strings.spec_count() == objs.len()
        &&& (self.interned_strings.spec_capacity() <= 8 || 3 * self.interned_strings.spec_capacity() <= 8 * objs.len())
    }

    pub fn new() -> (res: Self)
        ensures
            res.wf(),
            res.spec_strings() == Seq::<Seq<char>>::empty(),
            res.spec_table_capacity() == 0,
    {
        let res = Self { objects: TypedHeap::new(), interned_strings: Table::new() };
        proof {
            assert(res.spec_strings() =~= Seq::<Seq<char>>::empty());
        }
        res
    }

    /// The storage of the objects themselves.
    pub fn object_heap(&self) -> (res: &TypedHeap<Obj>)
        ensures
            *res == self.spec_object_heap(),
            heap_strings(res.spec_objects()) == self.spec_strings(),
    {
        &self.objects
    }

    /// Interns `string`: the object that already holds it, or else a new
    /// string object for it.
    pub fn allocate_string(&mut self, string: String) -> (res: Value)
        requires
            old(self).wf(),
            old(self).spec_strings().len() < string_limit(),
        ensures
            final(self).wf(),
            res matches Value::Obj(k) && k.spec_index() < final(self).spec_strings().len()
                && final(self).spec_strings()[k.spec_index() as int] == string@,
            old(self).spec_strings().contains(string@) ==> final(self).spec_strings() == old(self).spec_strings()
                && final(self).spec_table_capacity() == old(self).spec_table_capacity(),
            !old(self).spec_strings().contains(string@) ==> final(self).spec_strings() == old(self).spec_strings().push(string@),
            old(self).spec_object_heap().spec_objects().len() <= final(self).spec_object_heap().spec_objects().len(),
            forall|i: int|
                0 <= i < old(self).spec_object_heap().spec_objects().len() ==> final(self).spec_object_heap().spec_objects()[i]
                    == old(self).spec_object_heap().spec_objects()[i],
    {
        let hash = hash_of_str(string.as_str());
        match self.interned_strings.get_key_from_str(string.as_str(), hash, &self.objects) {
            Some(obj_pointer) => {
                proof {
                    self.interned_strings.lemma_keys_in_heap(&self.objects, obj_pointer.spec_index());
                    assert(self.spec_strings()[obj_pointer.spec_index() as int] == string@);
                    assert(self.spec_strings().contains(string@));
                }
                Value::Obj(obj_pointer)
            },
            None => {
                let ghost old_objects = self.objects;
                proof {
                    if self.spec_strings().contains(string@) {
                        let i = choose|i: int| 0 <= i < self.spec_strings().len() && self.spec_strings()[i] == string@;
                        let k = i as usize;
                        assert(self.objects.spec_objects()[k as int] == self.objects.spec_objects()[i]);
                        assert(self.interned_strings.spec_map().contains_key(k));
                        assert(false);
                    }
                }
                let obj_str = ObjStr { string, hash };
                let obj_pointer = self.objects.allocate(Obj { obj_type: ObjType::String(obj_str) });
                proof {
                    self.interned_strings.lemma_wf_heap_grows(&old_objects, &self.objects);
                }
                let out = Value::Obj(obj_pointer);
                self.interned_strings.set(obj_pointer, Value::Nil, &self.objects);
                proof {
                    let objs = self.objects.spec_objects();
                    assert(self.spec_strings() =~= heap_strings(old_objects.spec_objects()).push(obj_str.string@));
                    assert forall|k: usize| #![trigger objs[k as int]] k < objs.len() implies key_hash(&self.objects, k) == hash_of_chars(key_string(&self.objects, k)) by {
                        if k < old_objects.spec_objects().len() {
                            assert(objs[k as int] == old_objects.spec_objects()[k as int]);
                            assert(key_hash(&old_objects, k) == hash_of_chars(key_string(&old_objects, k)));
                        }
                    }
                }
                out
            },
        }
    }

    /// The object at `idx`.
    pub fn get_unchecked(&self, idx: TypedHeapIndex<Obj>) -> (res: &Obj)
        requires
            idx.spec_index() < self.spec_strings().len(),
        ensures
            res.spec_obj_str().spec_string() == self.spec_strings()[idx.spec_index() as int],
    {
        self.objects.get_unchecked(idx)
    }

    /// The string object at `idx`.
    pub fn get_unchecked_objstr(&self, idx: TypedHeapIndex<Obj>) -> (res: &ObjStr)
        requires
            idx.spec_index() < self.spec_strings().len(),
        ensures
            res.spec_string() == self.spec_strings()[idx.spec_index() as int],
            self.wf() ==> res.spec_hash() == hash_of_chars(res.spec_string()),
    {
        proof {
            if self.wf() {
                self.lemma_stored_hash(idx.spec_index());
            }
        }
        self.objects.get_unchecked_objstr(idx)
    }
}

/// Interning: in a valid heap two objects hold equal strings exactly when
/// they are the same object, so string equality is identity of objects.
pub proof fn lemma_interned_strings_identity(heap: &Heap, a: usize, b: usize)
    requires
        heap.wf(),
        a < heap.spec_strings().len(),
        b < heap.spec_strings().len(),
    ensures
        (heap.spec_strings()[a as int] == heap.spec_strings()[b as int]) <==> a == b,
{
}

} // verus!
