//! An open-addressing hash table keyed by interned strings, with linear
//! probing and tombstones. Keys are heap positions of string objects; a
//! key's hash is the one stored in its string object.

use vstd::prelude::*;
use vstd::string::StringSliceAdditionalSpecFns;

use crate::value::heap::{TypedHeap, TypedHeapIndex};
use crate::value::{Obj, Value};

verus! {

#[derive(Clone, Copy)]
pub struct Entry {
    pub key_pointer: TypedHeapIndex<Obj>,
    pub value: Value,
}

impl Entry {
    pub fn to_table_element(self) -> (res: TableElement)
        ensures
            res == TableElement::MaybeEntry(Some(self)),
    {
        TableElement::MaybeEntry(Some(self))
    }
}

/// A slot of the table: empty, holding an entry, or a tombstone left by a
/// deletion (which keeps probe sequences through it intact).
#[derive(Clone, Copy)]
pub enum TableElement {
    MaybeEntry(Option<Entry>),
    Tombstone,
}

/// What a probe found: a free slot never used, a tombstone to reuse, or the
/// slot of the key itself.
#[derive(PartialEq, Eq, Structural, Clone, Copy, Debug)]
pub enum SlotKind {
    Empty,
    Tombstone,
    Full,
}

pub open spec fn is_empty_slot(e: TableElement) -> bool {
    e matches TableElement::MaybeEntry(None)
}

pub open spec fn is_full_slot(e: TableElement) -> bool {
    e matches TableElement::MaybeEntry(Some(_))
}

/// The key held by a full slot.
pub open spec fn slot_key(e: TableElement) -> usize {
    match e {
        TableElement::MaybeEntry(Some(entry)) => entry.key_pointer.spec_index(),
        _ => 0,
    }
}

/// The value held by a full slot.
pub open spec fn slot_value(e: TableElement) -> Value {
    match e {
        TableElement::MaybeEntry(Some(entry)) => entry.value,
        _ => Value::Nil,
    }
}

/// The number of slots that are not empty (entries and tombstones).
pub open spec fn used_slots(s: Seq<TableElement>) -> nat
    decreases s.len(),
{
    if s.len() == 0 {
        0
    } else {
        used_slots(s.drop_last()) + if is_empty_slot(s.last()) {
            0nat
        } else {
            1nat
        }
    }
}

/// The slot visited `step` steps after `home` in a table of `len` slots.
pub open spec fn probe(home: int, step: int, len: int) -> int {
    if home + step < len {
        home + step
    } else {
        home + step - len
    }
}

/// How many steps from `home` the probe takes to reach slot `i`.
pub open spec fn distance(home: int, i: int, len: int) -> int {
    if i >= home {
        i - home
    } else {
        i + len - home
    }
}

/// The hash stored in the string object at `key`.
pub open spec fn key_hash(heap: &TypedHeap<Obj>, key: usize) -> u32 {
    heap.spec_objects()[key as int].spec_obj_str().spec_hash()
}

/// The slot where the probe for a key with `hash` starts.
pub open spec fn home_slot(hash: u32, len: int) -> int {
    (hash as int) % len
}

pub struct Table {
    entries: Vec<TableElement>,
    count: usize,
    /// The entries held, by key.
    contents: Ghost<Map<usize, Value>>,
}

impl Table {
    /// The key/value pairs the table holds.
    pub closed spec fn spec_map(&self) -> Map<usize, Value> {
        self.contents@
    }

    /// What `get` answers for the key object at `key`.
    pub open spec fn lookup(&self, key: usize) -> Option<Value> {
        if self.spec_map().contains_key(key) {
            Some(self.spec_map()[key])
        } else {
            None
        }
    }

    pub closed spec fn spec_entries(&self) -> Seq<TableElement> {
        self.entries@
    }

    pub closed spec fn spec_count(&self) -> nat {
        self.count as nat
    }

    /// No slot holds a tombstone: nothing was deleted since the table last
    /// grew.
    pub closed spec fn no_tombstones(&self) -> bool {
        forall|i: int| 0 <= i < self.entries@.len() ==> !(#[trigger] self.entries@[i] is Tombstone)
    }

    /// The invariant of the table, relative to the heap whose strings are
    /// its keys.
    pub closed spec fn wf(&self, heap: &TypedHeap<Obj>) -> bool {
        entries_wf(self.entries@, self.count as nat, self.contents@, heap)
    }

    /// Heap growth keeps the table valid: keys' objects never change.
    pub proof fn lemma_wf_heap_grows(&self, heap: &TypedHeap<Obj>, bigger: &TypedHeap<Obj>)
        requires
            self.wf(heap),
            heap.spec_objects().len() <= bigger.spec_objects().len(),
            forall|i: int|
                0 <= i < heap.spec_objects().len() ==> bigger.spec_objects()[i]
                    == heap.spec_objects()[i],
        ensures
            self.wf(bigger),
    {
        let entries = self.entries@;
        assert forall|i: int| 0 <= i < entries.len() && is_full_slot(entries[i]) implies key_hash(
            bigger,
            slot_key(entries[i]),
        ) == key_hash(heap, slot_key(entries[i])) by {}
    }

    /// The keys of the table are objects of the heap.
    pub proof fn lemma_keys_in_heap(&self, heap: &TypedHeap<Obj>, k: usize)
        requires
            self.wf(heap),
            self.spec_map().contains_key(k),
        ensures
            k < heap.spec_objects().len(),
    {
        let i = choose|i: int|
            0 <= i < self.entries@.len() && is_full_slot(self.entries@[i]) && slot_key(
                self.entries@[i],
            ) == k;
    }
}

/// Every full slot lies at the end of an unbroken run of used slots that
/// starts at its key's home slot.
pub open spec fn probe_chain_ok(entries: Seq<TableElement>, heap: &TypedHeap<Obj>) -> bool {
    forall|i: int, t: int|
        #![trigger entries[i], entries[probe(home_slot(key_hash(heap, slot_key(entries[i])), entries.len() as int), t, entries.len() as int)]]
        0 <= i < entries.len() && is_full_slot(entries[i]) && 0 <= t < distance(
            home_slot(key_hash(heap, slot_key(entries[i])), entries.len() as int),
            i,
            entries.len() as int,
        ) ==> !is_empty_slot(
            entries[probe(
                home_slot(key_hash(heap, slot_key(entries[i])), entries.len() as int),
                t,
                entries.len() as int,
            )],
        )
}

pub open spec fn entries_wf(
    entries: Seq<TableElement>,
    count: nat,
    contents: Map<usize, Value>,
    heap: &TypedHeap<Obj>,
) -> bool {
    &&& count == used_slots(entries)
    &&& (entries.len() > 0 ==> count < entries.len())
    &&& forall|i: int|
        0 <= i < entries.len() && is_full_slot(entries[i]) ==> slot_key(entries[i])
            < heap.spec_objects().len()
    &&& forall|i: int, j: int|
        0 <= i < entries.len() && 0 <= j < entries.len() && i != j && is_full_slot(entries[i])
            && is_full_slot(entries[j]) ==> slot_key(entries[i]) != slot_key(entries[j])
    &&& forall|k: usize|
        contents.contains_key(k) <==> exists|i: int|
            0 <= i < entries.len() && is_full_slot(entries[i]) && slot_key(entries[i]) == k
    &&& forall|i: int|
        0 <= i < entries.len() && is_full_slot(entries[i]) ==> contents[slot_key(entries[i])]
            == slot_value(entries[i])
    &&& probe_chain_ok(entries, heap)
}

proof fn lemma_used_slots_update(s: Seq<TableElement>, i: int, x: TableElement)
    requires
        0 <= i < s.len(),
        !is_empty_slot(x),
    ensures
        used_slots(s.update(i, x)) == used_slots(s) + if is_empty_slot(s[i]) {
            1nat
        } else {
            0nat
        },
    decreases s.len(),
{
    let t = s.update(i, x);
    if i == s.len() - 1 {
        assert(t.drop_last() =~= s.drop_last());
    } else {
        assert(t.drop_last() =~= s.drop_last().update(i, x));
        lemma_used_slots_update(s.drop_last(), i, x);
    }
}

proof fn lemma_used_slots_positive(s: Seq<TableElement>, i: int)
    requires
        0 <= i < s.len(),
        !is_empty_slot(s[i]),
    ensures
        used_slots(s) >= 1,
    decreases s.len(),
{
    if i < s.len() - 1 {
        lemma_used_slots_positive(s.drop_last(), i);
    }
}

proof fn lemma_used_slots_bound(s: Seq<TableElement>)
    ensures
        used_slots(s) <= s.len(),
        used_slots(s) < s.len() ==> exists|i: int| 0 <= i < s.len() && is_empty_slot(s[i]),
    decreases s.len(),
{
    if s.len() > 0 {
        lemma_used_slots_bound(s.drop_last());
        if used_slots(s) < s.len() && !is_empty_slot(s.last()) {
            let i = choose|i: int| 0 <= i < s.drop_last().len() && is_empty_slot(s.drop_last()[i]);
            assert(is_empty_slot(s[i]));
        }
    }
}

proof fn lemma_used_slots_all_empty(s: Seq<TableElement>)
    requires
        forall|i: int| 0 <= i < s.len() ==> is_empty_slot(s[i]),
    ensures
        used_slots(s) == 0,
    decreases s.len(),
{
    if s.len() > 0 {
        lemma_used_slots_all_empty(s.drop_last());
    }
}

proof fn lemma_used_slots_full_bound(s: Seq<TableElement>, n: int)
    requires
        0 <= n <= s.len(),
    ensures
        used_slots(s.subrange(0, n)) <= used_slots(s),
    decreases s.len(),
{
    if n < s.len() {
        lemma_used_slots_full_bound(s.drop_last(), n);
        assert(s.drop_last().subrange(0, n) =~= s.subrange(0, n));
    } else {
        assert(s.subrange(0, n) =~= s);
    }
}

/// The probe from `home` reaches every slot within `len` steps.
proof fn lemma_probe_distance(home: int, i: int, len: int)
    requires
        0 <= home < len,
        0 <= i < len,
    ensures
        0 <= distance(home, i, len) < len,
        probe(home, distance(home, i, len), len) == i,
{
}

proof fn lemma_distance_probe(home: int, t: int, len: int)
    requires
        0 <= home < len,
        0 <= t < len,
    ensures
        0 <= probe(home, t, len) < len,
        distance(home, probe(home, t, len), len) == t,
{
}

/// The result of probing for a key whose probe starts at `home`:
/// `steps` slots were looked at, starting with `home`, none of them empty.
pub open spec fn probe_result_ok(
    entries: Seq<TableElement>,
    home: int,
    res_index: int,
    res_kind: SlotKind,
    matches: spec_fn(TableElement) -> bool,
) -> bool {
    let len = entries.len() as int;
    &&& 0 <= res_index < len
    &&& match res_kind {
        SlotKind::Full => is_full_slot(entries[res_index]) && matches(entries[res_index]),
        SlotKind::Empty => is_empty_slot(entries[res_index]),
        SlotKind::Tombstone => entries[res_index] is Tombstone,
    }
    &&& res_kind != SlotKind::Full ==> exists|steps: int|
        #![trigger probe(home, steps, len)]
        0 <= steps < len && is_empty_slot(entries[probe(home, steps, len)]) && (forall|t: int|
            0 <= t < steps ==> !is_empty_slot(entries[probe(home, t, len)]) && !(is_full_slot(
                entries[probe(home, t, len)],
            ) && matches(entries[probe(home, t, len)]))) && distance(home, res_index, len) <= steps
            && (forall|t: int|
            0 <= t < distance(home, res_index, len) ==> !is_empty_slot(
                entries[probe(home, t, len)],
            ))
}

/// Finds the slot for `key_pointer`: the slot that holds it, or else the
/// slot where it belongs (the first tombstone on its probe, or the empty slot
/// that ends the probe).
pub fn find_slot(
    entries: &Vec<TableElement>,
    key_pointer: TypedHeapIndex<Obj>,
    heap: &TypedHeap<Obj>,
) -> (res: (usize, SlotKind))
    requires
        entries@.len() > 0,
        used_slots(entries@) < entries@.len(),
        key_pointer.spec_index() < heap.spec_objects().len(),
        forall|i: int|
            0 <= i < entries@.len() && is_full_slot(entries@[i]) ==> slot_key(entries@[i])
                < heap.spec_objects().len(),
    ensures
        probe_result_ok(
            entries@,
            home_slot(key_hash(heap, key_pointer.spec_index()), entries@.len() as int),
            res.0 as int,
            res.1,
            |e: TableElement| slot_key(e) == key_pointer.spec_index(),
        ),
{
    let len = entries.len();
    let key = heap.get_unchecked_objstr(key_pointer);
    let home = (key.hash() as usize) % len;
    proof {
        assert((|e: TableElement| needle_matches(Needle::Key(key_pointer), heap, e)) =~= (|e: TableElement| slot_key(e) == key_pointer.spec_index()));
    }
    find_slot_loop(entries, home, &Needle::Key(key_pointer), heap)
}

/// What a probe looks for: a key, or a string with its hash.
pub enum Needle<'a> {
    Key(TypedHeapIndex<Obj>),
    Str(&'a str, u32),
}

/// Whether the full slot `e` holds what `needle` looks for.
pub open spec fn needle_matches(needle: Needle, heap: &TypedHeap<Obj>, e: TableElement) -> bool {
    match needle {
        Needle::Key(k) => slot_key(e) == k.spec_index(),
        Needle::Str(s, hash) => key_hash(heap, slot_key(e)) == hash && key_string(heap, slot_key(e))
            == s@,
    }
}

fn slot_matches(needle: &Needle, heap: &TypedHeap<Obj>, e: &TableElement) -> (res: bool)
    requires
        is_full_slot(*e) ==> slot_key(*e) < heap.spec_objects().len(),
    ensures
        is_full_slot(*e) ==> res == needle_matches(*needle, heap, *e),
{
    match e {
        TableElement::MaybeEntry(Some(entry)) => match needle {
            Needle::Key(k) => entry.key_pointer.index() == k.index(),
            Needle::Str(key, hash) => {
                let entry_obj_str = heap.get_unchecked_objstr(entry.key_pointer);
                *hash == entry_obj_str.hash() && crate::value::str_equal(entry_obj_str.string(), key)
            },
        },
        _ => false,
    }
}

/// The probe loop shared by both lookups: walks from `home` until the
/// matching entry or an empty slot, remembering the first tombstone.
fn find_slot_loop(
    entries: &Vec<TableElement>,
    home: usize,
    needle: &Needle,
    heap: &TypedHeap<Obj>,
) -> (res: (usize, SlotKind))
    requires
        entries@.len() > 0,
        home < entries@.len(),
        used_slots(entries@) < entries@.len(),
        forall|i: int|
            0 <= i < entries@.len() && is_full_slot(entries@[i]) ==> slot_key(entries@[i])
                < heap.spec_objects().len(),
    ensures
        probe_result_ok(
            entries@,
            home as int,
            res.0 as int,
            res.1,
            |e: TableElement| needle_matches(*needle, heap, e),
        ),
{
    let ghost matches = |e: TableElement| needle_matches(*needle, heap, e);
    let len = entries.len();
    let ghost n = len as int;
    let mut index = home;
    let mut step: usize = 0;
    let mut first_observed_tombstone: Option<usize> = None;
    proof {
        lemma_used_slots_bound(entries@);
    }
    loop
        invariant
            len == entries@.len(),
            n == len,
            home < len,
            used_slots(entries@) < len,
            step < len,
            index == probe(home as int, step as int, n),
            forall|i: int|
                0 <= i < entries@.len() && is_full_slot(entries@[i]) ==> slot_key(entries@[i])
                    < heap.spec_objects().len(),
            matches == (|e: TableElement| needle_matches(*needle, heap, e)),
            exists|i: int| 0 <= i < entries@.len() && is_empty_slot(entries@[i]),
            forall|t: int|
                0 <= t < step ==> !is_empty_slot(entries@[probe(home as int, t, n)]) && !(
                is_full_slot(entries@[probe(home as int, t, n)]) && matches(
                    entries@[probe(home as int, t, n)],
                )),
            match first_observed_tombstone {
                None => forall|t: int|
                    0 <= t < step ==> is_full_slot(entries@[probe(home as int, t, n)]),
                Some(ti) => {
                    &&& ti < len
                    &&& entries@[ti as int] is Tombstone
                    &&& distance(home as int, ti as int, n) < step
                    &&& forall|t: int|
                        0 <= t < distance(home as int, ti as int, n) ==> is_full_slot(
                            entries@[probe(home as int, t, n)],
                        )
                },
            },
        decreases len - step,
    {
        let table_element = &entries[index];
        match table_element {
            TableElement::MaybeEntry(Some(_)) => {
                if slot_matches(needle, heap, table_element) {
                    return (index, SlotKind::Full);
                }
            },
            TableElement::MaybeEntry(None) => {
                proof {
                    lemma_distance_probe(home as int, step as int, n);
                }
                match first_observed_tombstone {
                    Some(tombstone_index) => {
                        proof {
                            lemma_distance_probe(home as int, step as int, n);
                            assert(probe(home as int, step as int, n) == index);
                        }
                        return (tombstone_index, SlotKind::Tombstone);
                    },
                    None => {
                        return (index, SlotKind::Empty);
                    },
                }
            },
            TableElement::Tombstone => {
                if first_observed_tombstone.is_none() {
                    proof {
                        lemma_distance_probe(home as int, step as int, n);
                    }
                    first_observed_tombstone = Some(index);
                }
            },
        }
        proof {
            lemma_distance_probe(home as int, step as int, n);
            if step + 1 == len {
                // every slot has been seen, and none was empty
                let e = choose|i: int| 0 <= i < entries@.len() && is_empty_slot(entries@[i]);
                lemma_probe_distance(home as int, e, n);
                let d = distance(home as int, e, n);
                assert(d <= step);
                if d < step {
                    assert(!is_empty_slot(entries@[probe(home as int, d, n)]));
                }
                assert(false);
            }
        }
        index = if index + 1 == len {
            0
        } else {
            index + 1
        };
        step = step + 1;
    }
}

} // verus!

verus! {

/// The characters of the string object at `key`.
pub open spec fn key_string(heap: &TypedHeap<Obj>, key: usize) -> Seq<char> {
    heap.spec_objects()[key as int].spec_obj_str().spec_string()
}

/// Finds the slot holding a key whose string is `key` with hash `hash`, or
/// else the slot where such a key belongs.
pub fn find_slot_from_str(
    entries: &Vec<TableElement>,
    key: &str,
    hash: u32,
    heap: &TypedHeap<Obj>,
) -> (res: (usize, SlotKind))
    requires
        entries@.len() > 0,
        used_slots(entries@) < entries@.len(),
        forall|i: int|
            0 <= i < entries@.len() && is_full_slot(entries@[i]) ==> slot_key(entries@[i])
                < heap.spec_objects().len(),
    ensures
        probe_result_ok(
            entries@,
            home_slot(hash, entries@.len() as int),
            res.0 as int,
            res.1,
            |e: TableElement|
                key_hash(heap, slot_key(e)) == hash && key_string(heap, slot_key(e)) == key@,
        ),
{
    let len = entries.len();
    let home = (hash as usize) % len;
    proof {
        assert((|e: TableElement| needle_matches(Needle::Str(key, hash), heap, e)) =~= (|e: TableElement|
            key_hash(heap, slot_key(e)) == hash && key_string(heap, slot_key(e)) == key@));
    }
    find_slot_loop(entries, home, &Needle::Str(key, hash), heap)
}

/// A probe that ends without finding its key shows that no slot holds it.
proof fn lemma_probe_miss(
    entries: Seq<TableElement>,
    count: nat,
    contents: Map<usize, Value>,
    heap: &TypedHeap<Obj>,
    home: int,
    res_index: int,
    res_kind: SlotKind,
    matches: spec_fn(TableElement) -> bool,
)
    requires
        entries_wf(entries, count, contents, heap),
        entries.len() > 0,
        probe_result_ok(entries, home, res_index, res_kind, matches),
        res_kind != SlotKind::Full,
    ensures
        forall|j: int|
            0 <= j < entries.len() && is_full_slot(entries[j]) && matches(entries[j]) ==> home
                != home_slot(key_hash(heap, slot_key(entries[j])), entries.len() as int),
{
    let len = entries.len() as int;
    let steps = choose|steps: int|
        #![trigger probe(home, steps, len)]
        0 <= steps < len && is_empty_slot(entries[probe(home, steps, len)]) && (forall|t: int|
            0 <= t < steps ==> !is_empty_slot(entries[probe(home, t, len)]) && !(is_full_slot(
                entries[probe(home, t, len)],
            ) && matches(entries[probe(home, t, len)]))) && distance(home, res_index, len) <= steps
            && (forall|t: int|
            0 <= t < distance(home, res_index, len) ==> !is_empty_slot(
                entries[probe(home, t, len)],
            ));
    assert forall|j: int|
        0 <= j < entries.len() && is_full_slot(entries[j]) && matches(entries[j]) implies home
        != home_slot(key_hash(heap, slot_key(entries[j])), len) by {
        if home == home_slot(key_hash(heap, slot_key(entries[j])), len) {
            lemma_probe_distance(home, j, len);
            let d = distance(home, j, len);
            if d < steps {
                assert(!(is_full_slot(entries[probe(home, d, len)]) && matches(
                    entries[probe(home, d, len)],
                )));
            } else if d == steps {
                assert(is_empty_slot(entries[probe(home, steps, len)]));
            } else {
                assert(!is_empty_slot(entries[probe(home, steps, len)]));
            }
        }
    }
}

/// Writing a new key into the slot its probe found keeps the table valid.
proof fn lemma_insert_new_key(
    entries: Seq<TableElement>,
    count: nat,
    contents: Map<usize, Value>,
    heap: &TypedHeap<Obj>,
    res_index: int,
    res_kind: SlotKind,
    entry: Entry,
)
    requires
        entries_wf(entries, count, contents, heap),
        entries.len() > 0,
        entry.key_pointer.spec_index() < heap.spec_objects().len(),
        !contents.contains_key(entry.key_pointer.spec_index()),
        res_kind != SlotKind::Full,
        probe_result_ok(
            entries,
            home_slot(key_hash(heap, entry.key_pointer.spec_index()), entries.len() as int),
            res_index,
            res_kind,
            |e: TableElement| slot_key(e) == entry.key_pointer.spec_index(),
        ),
        res_kind == SlotKind::Empty ==> count + 1 < entries.len(),
    ensures
        entries_wf(
            entries.update(res_index, TableElement::MaybeEntry(Some(entry))),
            count + if res_kind == SlotKind::Empty {
                1nat
            } else {
                0nat
            },
            contents.insert(entry.key_pointer.spec_index(), entry.value),
            heap,
        ),
{
    let len = entries.len() as int;
    let new_entries = entries.update(res_index, TableElement::MaybeEntry(Some(entry)));
    let k = entry.key_pointer.spec_index();
    let new_contents = contents.insert(k, entry.value);
    lemma_used_slots_update(entries, res_index, TableElement::MaybeEntry(Some(entry)));
    assert forall|i: int, j: int|
        0 <= i < len && 0 <= j < len && i != j && is_full_slot(new_entries[i]) && is_full_slot(
            new_entries[j],
        ) implies slot_key(new_entries[i]) != slot_key(new_entries[j]) by {
        if i == res_index {
            assert(contents.contains_key(slot_key(entries[j])));
        } else if j == res_index {
            assert(contents.contains_key(slot_key(entries[i])));
        }
    }
    assert forall|key: usize| new_contents.contains_key(key) <==> exists|i: int|
        0 <= i < len && is_full_slot(new_entries[i]) && slot_key(new_entries[i]) == key by {
        if new_contents.contains_key(key) && key != k {
            let i = choose|i: int|
                0 <= i < len && is_full_slot(entries[i]) && slot_key(entries[i]) == key;
            assert(is_full_slot(new_entries[i]) && slot_key(new_entries[i]) == key);
        }
        if new_contents.contains_key(key) && key == k {
            assert(is_full_slot(new_entries[res_index]) && slot_key(new_entries[res_index]) == key);
        }
        if exists|i: int| 0 <= i < len && is_full_slot(new_entries[i]) && slot_key(new_entries[i]) == key {
            let i = choose|i: int|
                0 <= i < len && is_full_slot(new_entries[i]) && slot_key(new_entries[i]) == key;
            if i != res_index {
                assert(is_full_slot(entries[i]) && slot_key(entries[i]) == key);
            }
        }
    }
    assert forall|i: int|
        0 <= i < len && is_full_slot(new_entries[i]) implies new_contents[slot_key(new_entries[i])]
        == slot_value(new_entries[i]) by {
        if i != res_index {
            assert(contents.contains_key(slot_key(entries[i])));
        }
    }
    assert forall|i: int, t: int|
        0 <= i < len && is_full_slot(new_entries[i]) && 0 <= t < distance(
            home_slot(key_hash(heap, slot_key(new_entries[i])), len),
            i,
            len,
        ) implies !is_empty_slot(
        new_entries[probe(home_slot(key_hash(heap, slot_key(new_entries[i])), len), t, len)],
    ) by {
        let h = home_slot(key_hash(heap, slot_key(new_entries[i])), len);
        lemma_distance_probe(h, t, len);
        if i != res_index {
            assert(!is_empty_slot(entries[probe(h, t, len)]));
        }
    }
}

/// Overwriting the value of a key that is present keeps the table valid.
proof fn lemma_replace_value(
    entries: Seq<TableElement>,
    count: nat,
    contents: Map<usize, Value>,
    heap: &TypedHeap<Obj>,
    res_index: int,
    entry: Entry,
)
    requires
        entries_wf(entries, count, contents, heap),
        0 <= res_index < entries.len(),
        is_full_slot(entries[res_index]),
        slot_key(entries[res_index]) == entry.key_pointer.spec_index(),
    ensures
        entries_wf(
            entries.update(res_index, TableElement::MaybeEntry(Some(entry))),
            count,
            contents.insert(entry.key_pointer.spec_index(), entry.value),
            heap,
        ),
{
    let len = entries.len() as int;
    let new_entries = entries.update(res_index, TableElement::MaybeEntry(Some(entry)));
    let k = entry.key_pointer.spec_index();
    let new_contents = contents.insert(k, entry.value);
    lemma_used_slots_update(entries, res_index, TableElement::MaybeEntry(Some(entry)));
    assert forall|key: usize| new_contents.contains_key(key) <==> exists|i: int|
        0 <= i < len && is_full_slot(new_entries[i]) && slot_key(new_entries[i]) == key by {
        if new_contents.contains_key(key) && key != k {
            let i = choose|i: int|
                0 <= i < len && is_full_slot(entries[i]) && slot_key(entries[i]) == key;
            assert(is_full_slot(new_entries[i]) && slot_key(new_entries[i]) == key);
        }
        if new_contents.contains_key(key) && key == k {
            assert(is_full_slot(new_entries[res_index]) && slot_key(new_entries[res_index]) == key);
        }
        if exists|i: int| 0 <= i < len && is_full_slot(new_entries[i]) && slot_key(new_entries[i]) == key {
            let i = choose|i: int|
                0 <= i < len && is_full_slot(new_entries[i]) && slot_key(new_entries[i]) == key;
            if i != res_index {
                assert(is_full_slot(entries[i]) && slot_key(entries[i]) == key);
            }
        }
    }
    assert forall|i: int|
        0 <= i < len && is_full_slot(new_entries[i]) implies new_contents[slot_key(new_entries[i])]
        == slot_value(new_entries[i]) by {
        if i != res_index {
            assert(slot_key(entries[i]) != k);
        }
    }
    assert forall|i: int, t: int|
        0 <= i < len && is_full_slot(new_entries[i]) && 0 <= t < distance(
            home_slot(key_hash(heap, slot_key(new_entries[i])), len),
            i,
            len,
        ) implies !is_empty_slot(
        new_entries[probe(home_slot(key_hash(heap, slot_key(new_entries[i])), len), t, len)],
    ) by {
        let h = home_slot(key_hash(heap, slot_key(new_entries[i])), len);
        lemma_distance_probe(h, t, len);
        assert(!is_empty_slot(entries[probe(h, t, len)]));
    }
}

/// Turning the slot of a present key into a tombstone removes the key and
/// keeps the table valid.
proof fn lemma_delete_key(
    entries: Seq<TableElement>,
    count: nat,
    contents: Map<usize, Value>,
    heap: &TypedHeap<Obj>,
    res_index: int,
)
    requires
        entries_wf(entries, count, contents, heap),
        0 <= res_index < entries.len(),
        is_full_slot(entries[res_index]),
    ensures
        entries_wf(
            entries.update(res_index, TableElement::Tombstone),
            count,
            contents.remove(slot_key(entries[res_index])),
            heap,
        ),
{
    let len = entries.len() as int;
    let new_entries = entries.update(res_index, TableElement::Tombstone);
    let k = slot_key(entries[res_index]);
    let new_contents = contents.remove(k);
    lemma_used_slots_update(entries, res_index, TableElement::Tombstone);
    assert forall|key: usize| new_contents.contains_key(key) <==> exists|i: int|
        0 <= i < len && is_full_slot(new_entries[i]) && slot_key(new_entries[i]) == key by {
        if new_contents.contains_key(key) {
            let i = choose|i: int|
                0 <= i < len && is_full_slot(entries[i]) && slot_key(entries[i]) == key;
            assert(i != res_index);
            assert(is_full_slot(new_entries[i]) && slot_key(new_entries[i]) == key);
        }
        if exists|i: int| 0 <= i < len && is_full_slot(new_entries[i]) && slot_key(new_entries[i]) == key {
            let i = choose|i: int|
                0 <= i < len && is_full_slot(new_entries[i]) && slot_key(new_entries[i]) == key;
            assert(i != res_index);
            assert(is_full_slot(entries[i]) && slot_key(entries[i]) == key);
        }
    }
    assert forall|i: int|
        0 <= i < len && is_full_slot(new_entries[i]) implies new_contents[slot_key(new_entries[i])]
        == slot_value(new_entries[i]) by {
        assert(i != res_index);
        assert(slot_key(entries[i]) != k);
    }
    assert forall|i: int, t: int|
        0 <= i < len && is_full_slot(new_entries[i]) && 0 <= t < distance(
            home_slot(key_hash(heap, slot_key(new_entries[i])), len),
            i,
            len,
        ) implies !is_empty_slot(
        new_entries[probe(home_slot(key_hash(heap, slot_key(new_entries[i])), len), t, len)],
    ) by {
        let h = home_slot(key_hash(heap, slot_key(new_entries[i])), len);
        lemma_distance_probe(h, t, len);
        assert(!is_empty_slot(entries[probe(h, t, len)]));
    }
}

} // verus!

verus! {

/// The largest number of slots for which the load-factor arithmetic cannot
/// overflow.
pub open spec fn max_capacity() -> nat {
    (usize::MAX / 8) as nat
}

/// The capacity a table grows to from `len` slots.
pub open spec fn grown_capacity(len: nat) -> nat {
    if 2 * len >= 8 {
        2 * len
    } else {
        8
    }
}

impl Table {
    /// The number of slots.
    pub closed spec fn spec_capacity(&self) -> nat {
        self.entries@.len()
    }

    pub fn new() -> (res: Self)
        ensures
            forall|heap: &TypedHeap<Obj>| res.wf(heap),
            res.spec_map() == Map::<usize, Value>::empty(),
            res.spec_capacity() == 0,
            res.spec_count() == 0,
            res.no_tombstones(),
    {
        let res = Self { entries: Vec::new(), count: 0, contents: Ghost(Map::empty()) };
        proof {
            assert forall|heap: &TypedHeap<Obj>| res.wf(heap) by {
                assert(used_slots(res.entries@) == 0);
            }
        }
        res
    }

    /// The number of slots.
    pub fn capacity(&self) -> (res: usize)
        ensures
            res == self.spec_capacity(),
    {
        self.entries.len()
    }

    /// The number of used slots: entries plus tombstones.
    pub fn count(&self) -> (res: usize)
        ensures
            res == self.spec_count(),
    {
        self.count
    }

    /// Removes `key_pointer`. Returns whether it was present.
    pub fn delete(&mut self, key_pointer: TypedHeapIndex<Obj>, heap: &TypedHeap<Obj>) -> (res: bool)
        requires
            old(self).wf(heap),
            key_pointer.spec_index() < heap.spec_objects().len(),
        ensures
            final(self).wf(heap),
            res == old(self).spec_map().contains_key(key_pointer.spec_index()),
            final(self).spec_map() == old(self).spec_map().remove(key_pointer.spec_index()),
            final(self).spec_capacity() == old(self).spec_capacity(),
            final(self).spec_count() == old(self).spec_count(),
    {
        if self.count == 0 {
            proof {
                if self.contents@.contains_key(key_pointer.spec_index()) {
                    let i = choose|i: int|
                        0 <= i < self.entries@.len() && is_full_slot(self.entries@[i])
                            && slot_key(self.entries@[i]) == key_pointer.spec_index();
                    lemma_used_slots_update(self.entries@, i, self.entries@[i]);
                    assert(self.entries@.update(i, self.entries@[i]) =~= self.entries@);
                    assert(used_slots(self.entries@) >= 1) by {
                        lemma_used_slots_bound(self.entries@.update(i, TableElement::MaybeEntry(None)));
                        lemma_used_slots_update(self.entries@.update(i, TableElement::MaybeEntry(None)), i, self.entries@[i]);
                        assert(self.entries@.update(i, TableElement::MaybeEntry(None)).update(i, self.entries@[i]) =~= self.entries@);
                    }
                }
                assert(self.contents@.remove(key_pointer.spec_index()) =~= self.contents@);
            }
            false
        } else {
            let (index, slot_kind) = find_slot(&self.entries, key_pointer, heap);
            if slot_kind == SlotKind::Empty || slot_kind == SlotKind::Tombstone {
                proof {
                    lemma_probe_miss(
                        self.entries@,
                        self.count as nat,
                        self.contents@,
                        heap,
                        home_slot(key_hash(heap, key_pointer.spec_index()), self.entries@.len() as int),
                        index as int,
                        slot_kind,
                        |e: TableElement| slot_key(e) == key_pointer.spec_index(),
                    );
                    assert(!self.contents@.contains_key(key_pointer.spec_index()));
                    assert(self.contents@.remove(key_pointer.spec_index()) =~= self.contents@);
                }
                false
            } else {
                proof {
                    lemma_delete_key(self.entries@, self.count as nat, self.contents@, heap, index as int);
                }
                self.entries.set(index, TableElement::Tombstone);
                self.contents = Ghost(self.contents@.remove(key_pointer.spec_index()));
                true
            }
        }
    }

    /// The value stored under `key_pointer`, if any.
    pub fn get(&self, key_pointer: TypedHeapIndex<Obj>, heap: &TypedHeap<Obj>) -> (res: Option<Value>)
        requires
            self.wf(heap),
            key_pointer.spec_index() < heap.spec_objects().len(),
        ensures
            res == self.lookup(key_pointer.spec_index()),
    {
        if self.entries.len() == 0 {
            None
        } else {
            let (index, kind) = find_slot(&self.entries, key_pointer, heap);
            proof {
                if kind != SlotKind::Full {
                    lemma_probe_miss(
                        self.entries@,
                        self.count as nat,
                        self.contents@,
                        heap,
                        home_slot(key_hash(heap, key_pointer.spec_index()), self.entries@.len() as int),
                        index as int,
                        kind,
                        |e: TableElement| slot_key(e) == key_pointer.spec_index(),
                    );
                }
            }
            match self.entries[index] {
                TableElement::MaybeEntry(entry) => match entry {
                    Some(e) => Some(e.value),
                    None => None,
                },
                TableElement::Tombstone => None,
            }
        }
    }

    /// The key whose string object holds `key` with hash `hash`, if the
    /// table has one.
    pub fn get_key_from_str(&self, key: &str, hash: u32, heap: &TypedHeap<Obj>) -> (res: Option<TypedHeapIndex<Obj>>)
        requires
            self.wf(heap),
        ensures
            res matches Some(k) ==> {
                &&& self.spec_map().contains_key(k.spec_index())
                &&& key_string(heap, k.spec_index()) == key@
                &&& key_hash(heap, k.spec_index()) == hash
            },
            res is None ==> forall|k: usize|
                self.spec_map().contains_key(k) && key_hash(heap, k) == hash ==> key_string(heap, k)
                    != key@,
    {
        if self.entries.len() == 0 {
            None
        } else {
            let (index, kind) = find_slot_from_str(&self.entries, key, hash, heap);
            proof {
                if kind != SlotKind::Full {
                    let f = |e: TableElement|
                        key_hash(heap, slot_key(e)) == hash && key_string(heap, slot_key(e)) == key@;
                    lemma_probe_miss(
                        self.entries@,
                        self.count as nat,
                        self.contents@,
                        heap,
                        home_slot(hash, self.entries@.len() as int),
                        index as int,
                        kind,
                        f,
                    );
                    assert forall|k: usize|
                        self.contents@.contains_key(k) && key_hash(heap, k) == hash implies key_string(heap, k)
                        != key@ by {
                        let i = choose|i: int|
                            0 <= i < self.entries@.len() && is_full_slot(self.entries@[i]) && slot_key(
                                self.entries@[i],
                            ) == k;
                        assert(!f(self.entries@[i]));
                    }
                }
            }
            match self.entries[index] {
                TableElement::MaybeEntry(entry) => match entry {
                    Some(e) => Some(e.key_pointer),
                    None => None,
                },
                TableElement::Tombstone => None,
            }
        }
    }

    /// Stores `value` under `key_pointer`, growing the table first when one
    /// more used slot would take it past three quarters full. Returns whether
    /// the key is new.
    pub fn set(&mut self, key_pointer: TypedHeapIndex<Obj>, value: Value, heap: &TypedHeap<Obj>) -> (res: bool)
        requires
            old(self).wf(heap),
            key_pointer.spec_index() < heap.spec_objects().len(),
            old(self).spec_capacity() <= max_capacity(),
        ensures
            final(self).wf(heap),
            res == !old(self).spec_map().contains_key(key_pointer.spec_index()),
            final(self).spec_map() == old(self).spec_map().insert(key_pointer.spec_index(), value),
            final(self).spec_capacity() == if (old(self).spec_count() + 1) * 4 > old(self).spec_capacity() * 3 {
                grown_capacity(old(self).spec_capacity())
            } else {
                old(self).spec_capacity()
            },
            old(self).no_tombstones() ==> final(self).no_tombstones()
                && final(self).spec_count() == old(self).spec_count() + if res { 1nat } else { 0nat },
            final(self).spec_count() <= old(self).spec_count() + 1,
            1 <= final(self).spec_count() < final(self).spec_capacity(),
    {
        let len = self.entries.len();
        // if count + 1 > capacity * 0.75, rewritten into whole-number form
        if (self.count + 1) * 4 > len * 3 {
            let new_capacity = if len * 2 >= 8 { len * 2 } else { 8 };
            self.adjust_capacity(new_capacity, heap);
        }
        let (index, slot_kind) = find_slot(&self.entries, key_pointer, heap);
        let entry = Entry { key_pointer, value };
        proof {
            if slot_kind == SlotKind::Full {
                lemma_replace_value(self.entries@, self.count as nat, self.contents@, heap, index as int, entry);
            } else {
                lemma_probe_miss(
                    self.entries@,
                    self.count as nat,
                    self.contents@,
                    heap,
                    home_slot(key_hash(heap, key_pointer.spec_index()), self.entries@.len() as int),
                    index as int,
                    slot_kind,
                    |e: TableElement| slot_key(e) == key_pointer.spec_index(),
                );
                lemma_insert_new_key(self.entries@, self.count as nat, self.contents@, heap, index as int, slot_kind, entry);
            }
        }
        self.entries.set(index, entry.to_table_element());
        self.contents = Ghost(self.contents@.insert(key_pointer.spec_index(), value));
        if slot_kind == SlotKind::Empty {
            self.count = self.count + 1;
        }
        proof {
            lemma_used_slots_positive(self.entries@, index as int);
        }
        slot_kind == SlotKind::Empty || slot_kind == SlotKind::Tombstone
    }

    /// Moves every entry into a fresh array of `new_capacity` slots, dropping
    /// tombstones.
    fn adjust_capacity(&mut self, new_capacity: usize, heap: &TypedHeap<Obj>)
        requires
            old(self).wf(heap),
            new_capacity > old(self).spec_capacity(),
            new_capacity >= 8,
            new_capacity >= 2 * old(self).spec_capacity(),
        ensures
            final(self).wf(heap),
            final(self).spec_map() == old(self).spec_map(),
            final(self).spec_capacity() == new_capacity,
            final(self).spec_count() + 1 < new_capacity,
            final(self).spec_count() <= old(self).spec_count(),
            final(self).no_tombstones(),
            old(self).no_tombstones() ==> final(self).spec_count() == old(self).spec_count(),
    {
        let mut old_entries: Vec<TableElement> = Vec::new();
        let mut k: usize = 0;
        while k < new_capacity
            invariant
                k <= new_capacity,
                old_entries@.len() == k,
                forall|j: int| 0 <= j < k ==> is_empty_slot(old_entries@[j]),
            decreases new_capacity - k,
        {
            old_entries.push(TableElement::MaybeEntry(None));
            k = k + 1;
        }
        std::mem::swap(&mut self.entries, &mut old_entries);
        let ghost old_contents = self.contents@;
        let ghost old_count = self.count as nat;
        proof {
            lemma_used_slots_all_empty(self.entries@);
            lemma_used_slots_bound(old_entries@);
        }
        self.count = 0;
        self.contents = Ghost(Map::empty());
        let mut i: usize = 0;
        while i < old_entries.len()
            invariant
                entries_wf(old_entries@, old_count, old_contents, heap),
                i <= old_entries@.len(),
                self.entries@.len() == new_capacity,
                new_capacity >= 8,
                new_capacity >= 2 * old_entries@.len(),
                old_count <= old_entries@.len(),
                self.count <= used_slots(old_entries@.subrange(0, i as int)),
                (forall|j: int| 0 <= j < old_entries@.len() ==> !(#[trigger] old_entries@[j] is Tombstone))
                    ==> self.count == used_slots(old_entries@.subrange(0, i as int)),
                entries_wf(self.entries@, self.count as nat, self.contents@, heap),
                forall|j: int| 0 <= j < self.entries@.len() ==> !(self.entries@[j] is Tombstone),
                forall|key: usize| self.contents@.contains_key(key) <==> exists|j: int|
                    0 <= j < i && is_full_slot(old_entries@[j]) && slot_key(old_entries@[j]) == key,
                forall|key: usize| self.contents@.contains_key(key) ==> self.contents@[key] == old_contents[key],
            decreases old_entries@.len() - i,
        {
            let table_element = old_entries[i];
            match table_element {
                TableElement::MaybeEntry(Some(entry)) => {
                    proof {
                        assert(old_contents.contains_key(entry.key_pointer.spec_index()));
                        lemma_used_slots_bound(self.entries@);
                        if self.contents@.contains_key(entry.key_pointer.spec_index()) {
                            let j = choose|j: int|
                                0 <= j < i && is_full_slot(old_entries@[j]) && slot_key(old_entries@[j])
                                    == entry.key_pointer.spec_index();
                            assert(false);
                        }
                        lemma_used_slots_bound(old_entries@.subrange(0, i as int));
                    }
                    let (index, kind) = find_slot(&self.entries, entry.key_pointer, heap);
                    proof {
                        assert(kind == SlotKind::Empty);
                        lemma_insert_new_key(self.entries@, self.count as nat, self.contents@, heap, index as int, kind, entry);
                    }
                    self.entries.set(index, entry.to_table_element());
                    self.contents = Ghost(self.contents@.insert(entry.key_pointer.spec_index(), entry.value));
                    self.count = self.count + 1;
                    proof {
                        assert forall|key: usize| self.contents@.contains_key(key) <==> exists|j: int|
                            0 <= j < i + 1 && is_full_slot(old_entries@[j]) && slot_key(old_entries@[j]) == key by {
                            if key == entry.key_pointer.spec_index() {
                                assert(is_full_slot(old_entries@[i as int]) && slot_key(old_entries@[i as int]) == key);
                            }
                        }
                        assert(old_entries@.subrange(0, i + 1).drop_last() =~= old_entries@.subrange(0, i as int));
                    }
                },
                _ => {
                    proof {
                        assert(old_entries@.subrange(0, i + 1).drop_last() =~= old_entries@.subrange(0, i as int));
                        assert forall|key: usize| self.contents@.contains_key(key) <==> exists|j: int|
                            0 <= j < i + 1 && is_full_slot(old_entries@[j]) && slot_key(old_entries@[j]) == key by {
                            if exists|j: int| 0 <= j < i + 1 && is_full_slot(old_entries@[j]) && slot_key(old_entries@[j]) == key {
                                let j = choose|j: int| 0 <= j < i + 1 && is_full_slot(old_entries@[j]) && slot_key(old_entries@[j]) == key;
                                assert(j != i);
                            }
                        }
                    }
                },
            }
            i = i + 1;
        }
        proof {
            assert(self.contents@ =~= old_contents);
            lemma_used_slots_bound(old_entries@);
            assert(old_entries@.subrange(0, old_entries@.len() as int) =~= old_entries@);
        }
    }
}

/// Reading back a write: after `set` of a key, `get` of that key gives the
/// value set and every other key gives what it gave before.
pub proof fn lemma_get_after_set(before: Table, after: Table, key: usize, value: Value, other: usize)
    requires
        after.spec_map() == before.spec_map().insert(key, value),
    ensures
        after.lookup(key) == Some(value),
        other != key ==> after.lookup(other) == before.lookup(other),
{
}

/// Reading back a deletion: after `delete` of a key, `get` of that key gives
/// nothing and every other key gives what it gave before.
pub proof fn lemma_get_after_delete(before: Table, after: Table, key: usize, other: usize)
    requires
        after.spec_map() == before.spec_map().remove(key),
    ensures
        after.lookup(key) is None,
        other != key ==> after.lookup(other) == before.lookup(other),
{
}

} // verus!
