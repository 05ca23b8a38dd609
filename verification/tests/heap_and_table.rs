use rlox::obj_heap::ObjHeap;
use rlox::table::Table;
use rlox::value::heap::{Heap, TypedHeapIndex};
use rlox::value::{hash_of_str, Obj, ObjType, Value};

fn get_obj_str_pointer(s: &str, heap: &mut Heap) -> TypedHeapIndex<Obj> {
    match heap.allocate_string(s.to_string()) {
        Value::Obj(typed_heap_index) => typed_heap_index,
        _ => panic!("Expected Value::Obj"),
    }
}

#[test]
fn test_get_on_empty() {
    let table = Table::new();
    let mut heap = Heap::new();
    let key_pointer = get_obj_str_pointer("key", &mut heap);
    assert!(table.get(key_pointer, heap.object_heap()).is_none());
    assert_eq!(table.count(), 0);
}

#[test]
fn test_round_trips() {
    let mut table = Table::new();
    let mut heap = Heap::new();
    let key_pointer = get_obj_str_pointer("First", &mut heap);
    let value = Value::Nil;
    table.set(key_pointer.clone(), value.clone(), heap.object_heap());
    assert!(value.is_equal_raw(&table.get(key_pointer, heap.object_heap()).unwrap()));
    assert_eq!(table.count(), 1);
}

#[test]
fn test_many_insertions() {
    let mut table = Table::new();
    let mut heap = Heap::new();
    for i in 0..100_000 {
        let key_pointer = get_obj_str_pointer(&format!("{i}"), &mut heap);
        table.set(key_pointer.clone(), Value::Number((i as f64).to_bits()), heap.object_heap());
        assert!(Value::Number((i as f64).to_bits())
            .is_equal_raw(&table.get(key_pointer, heap.object_heap()).unwrap()));
    }
    assert_eq!(table.count(), 100_000);
}

#[test]
fn test_many_insertions_and_deletions() {
    let mut table = Table::new();
    let mut heap = Heap::new();
    for i in 0..100_000 {
        let key = get_obj_str_pointer(&format!("{i}"), &mut heap);
        table.set(key.clone(), Value::Number((i as f64).to_bits()), heap.object_heap());
        assert!(Value::Number((i as f64).to_bits())
            .is_equal_raw(&table.get(key.clone(), heap.object_heap()).unwrap()));
        table.delete(key, heap.object_heap());
    }
    assert!(0 < table.count());
    assert!(table.count() < 100_000);
}

#[test]
fn test_set_reports_new_keys_and_overwrites() {
    let mut table = Table::new();
    let mut heap = Heap::new();
    let key = get_obj_str_pointer("k", &mut heap);
    assert!(table.set(key.clone(), Value::Bool(true), heap.object_heap()));
    assert!(!table.set(key.clone(), Value::Bool(false), heap.object_heap()));
    assert!(Value::Bool(false).is_equal_raw(&table.get(key.clone(), heap.object_heap()).unwrap()));
    assert!(table.delete(key.clone(), heap.object_heap()));
    assert!(!table.delete(key.clone(), heap.object_heap()));
    assert!(table.get(key, heap.object_heap()).is_none());
}

#[test]
fn test_simple_allocation() {
    let mut heap = Heap::new();
    heap.allocate_string("Abc".to_string());
}

#[test]
fn test_round_trip() {
    let s = "Abc";
    let mut heap = Heap::new();
    let pointer = get_obj_str_pointer(s, &mut heap);
    let obj = heap.get_unchecked(pointer.clone());
    match obj.obj_type() {
        ObjType::String(obj_str) => assert_eq!(obj_str.string(), s),
    }
    let obj_str = heap.get_unchecked_objstr(pointer);
    assert_eq!(obj_str.string(), s);
}

#[test]
fn test_string_interning_deduplicates() {
    let mut heap = Heap::new();
    let ptr1 = get_obj_str_pointer("Abc", &mut heap);
    let ptr2 = get_obj_str_pointer("Def", &mut heap);
    let ptr3 = get_obj_str_pointer("Abc", &mut heap);
    assert_eq!(ptr1.index(), ptr3.index());
    assert!(ptr2.index() != ptr1.index());
    assert_eq!(heap.strings_len(), 2);
}

#[test]
fn test_obj_heap_allocates_in_order() {
    let mut heap = Heap::new();
    let a = get_obj_str_pointer("a", &mut heap);
    let b = get_obj_str_pointer("b", &mut heap);
    let mut arena = ObjHeap::new();
    let ia = arena.allocate(heap.get_unchecked(a).clone());
    let ib = arena.allocate(heap.get_unchecked(b).clone());
    assert_eq!(ia.0, 0);
    assert_eq!(ib.0, 1);
    assert_eq!(arena.get_unchecked(ib).obj_str().string(), "b");
    assert_eq!(arena.get_unchecked(ia).obj_str().string(), "a");
}

#[test]
fn test_string_hash_is_fnv1a() {
    // FNV-1a of the empty string is the offset basis; of "a" a known value.
    assert_eq!(rlox::value::hash_of_str(""), 2166136261);
    assert_eq!(rlox::value::hash_of_str("a"), 0xe40c292c);
}

#[test]
fn test_count_after_set_without_deletions() {
    let mut table = Table::new();
    let mut heap = Heap::new();
    let a = get_obj_str_pointer("a", &mut heap);
    let b = get_obj_str_pointer("b", &mut heap);
    assert!(table.set(a, Value::Nil, heap.object_heap()));
    assert_eq!(table.count(), 1);
    assert_eq!(table.capacity(), 8);
    assert!(!table.set(a, Value::Bool(true), heap.object_heap()));
    assert_eq!(table.count(), 1);
    assert!(table.set(b, Value::Nil, heap.object_heap()));
    assert_eq!(table.count(), 2);
}

#[test]
fn test_interned_string_carries_its_hash() {
    let mut heap = Heap::new();
    let a = get_obj_str_pointer("hello", &mut heap);
    let b = get_obj_str_pointer("world", &mut heap);
    let a2 = get_obj_str_pointer("hello", &mut heap);
    assert_eq!(heap.get_unchecked_objstr(a).hash(), hash_of_str("hello"));
    assert_eq!(heap.get_unchecked_objstr(b).hash(), hash_of_str("world"));
    assert!(a == a2);
    assert!(a != b);
    assert!(TypedHeapIndex::<Obj>::new(3) == TypedHeapIndex::<Obj>::new(3));
}
