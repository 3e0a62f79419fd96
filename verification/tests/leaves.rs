use cel::runtime::heap::{is_immortal, CelHeap, HostIndex};
use cel::runtime::object::{
    bytes_len, bytes_payload, clone_ref, list_get, list_int_at, list_ints_slice, list_len,
    list_try_append, map_len, map_lookup_string, map_try_insert, new_bool, new_bytes, new_cel_frame,
    new_double, new_duration, new_int, new_int_column, new_int_in, new_list, new_list_ints,
    new_list_window, new_list_with_capacity, new_map, new_map_with_capacity, new_null, new_opaque,
    new_optional, new_optional_none, new_string, new_struct, new_timestamp, new_type, new_uint,
    same_object, seal_list, seal_map, string_as_str, string_byte_len, struct_lookup_field, w_kind,
    w_place, w_type, CelClass, CelKind, CelObject, CelRef, Place, W_Root,
};
use cel::runtime::object_array::{
    bytes_base, bytes_block_token, bytes_capacity, items_block_items_base, items_block_token,
    items_capacity, new_bytes_block, new_items_block, new_items_block_zeroed,
};
use std::sync::Arc;

fn s(text: &str) -> Arc<String> {
    Arc::new(text.to_string())
}

fn place(w: &CelRef) -> Place {
    w_place(w.as_ref().unwrap())
}

#[test]
fn every_leaf_starts_with_its_header() {
    let h = &mut CelHeap::new();
    let w = new_int(h, 7);
    match &**w.as_ref().unwrap() {
        W_Root::Int(o) => assert_eq!(o.ob_header, CelObject { at: place(&w) }),
        other => panic!("{other:?}"),
    }
    let t = new_timestamp(h, 1, 2);
    match &**t.as_ref().unwrap() {
        W_Root::Timestamp(o) => assert_eq!(o.ob_header, CelObject { at: place(&t) }),
        other => panic!("{other:?}"),
    }
    let n = new_null();
    match &**n.as_ref().unwrap() {
        W_Root::Null(o) => assert_eq!(o.ob_header, CelObject { at: place(&n) }),
        other => panic!("{other:?}"),
    }
    let m = new_map(h, &vec![]);
    assert!(h.contains(place(&m)));
    let st = new_struct(h, s("T"), &vec![]);
    assert!(h.contains(place(&st)));
    assert_ne!(place(&m), place(&st));
}

#[test]
fn every_constructor_stamps_its_own_class() {
    fn check(w: CelRef, expected: CelClass) {
        assert_eq!(w_type(&w.unwrap()), expected);
    }
    let h = &mut CelHeap::new();
    check(new_int(h, 1), CelClass::Int);
    check(new_uint(h, 1), CelClass::UInt);
    check(new_double(h, 1.0f64.to_bits()), CelClass::Double);
    check(new_bool(true), CelClass::Bool);
    check(new_null(), CelClass::Null);
    check(new_duration(h, 1), CelClass::Duration);
    check(new_timestamp(h, 1, 0), CelClass::Timestamp);
    check(new_type(h, CelClass::Int), CelClass::Type);
    let one = new_int(h, 1).unwrap();
    check(new_optional(h, one), CelClass::Optional);
    check(new_optional_none(h), CelClass::Optional);
    check(new_bytes(h, &Arc::new(b"x".to_vec())), CelClass::Bytes);
    check(new_string(h, &s("x")), CelClass::Str);
    check(new_list(h, &vec![]), CelClass::List);
    check(Some(Arc::new(W_Root::Frame(new_cel_frame(h, 0, 0)))), CelClass::Frame);
    check(new_map(h, &vec![]), CelClass::CelMap);
    let opaque_type = new_type(h, CelClass::Opaque);
    check(new_opaque(h, opaque_type, HostIndex::Old(0)), CelClass::Opaque);
    check(new_struct(h, s("T"), &vec![]), CelClass::Struct);
    check(new_int_column(h, vec![1]), CelClass::IntColumn);
}

#[test]
fn a_variable_length_leaf_and_its_block_agree_on_length() {
    let h = &mut CelHeap::new();
    let b = new_bytes(h, &Arc::new(b"hello".to_vec())).unwrap();
    match &*b {
        W_Root::Bytes(o) => {
            assert_eq!(bytes_len(o), 5);
            assert_eq!(bytes_payload(o).as_slice(), b"hello");
        }
        other => panic!("{other:?}"),
    }
    let w = new_string(h, &s("hi")).unwrap();
    match &*w {
        W_Root::Str(o) => assert_eq!(string_byte_len(o), 2),
        other => panic!("{other:?}"),
    }
    assert_eq!(string_as_str(&w), Some("hi"));
    assert_eq!(string_as_str(&b), None);

    let elems: Vec<CelRef> = (0..3).map(|i| new_int(h, i)).collect();
    let l = new_list(h, &elems).unwrap();
    match &*l {
        W_Root::List(o) => {
            assert_eq!(list_len(o), 3);
            for (i, e) in elems.iter().enumerate() {
                assert!(same_object(&list_get(h, o, i as i64).unwrap(), e));
            }
            assert!(list_get(h, o, 3).is_none());
            assert!(list_get(h, o, -1).is_none());
        }
        other => panic!("{other:?}"),
    }

    let pairs = vec![
        (new_int(h, 1), new_string(h, &s("a"))),
        (new_string(h, &s("b")), new_bool(true)),
    ];
    let m = new_map(h, &pairs).unwrap();
    match &*m {
        W_Root::CelMap(o) => {
            assert_eq!(map_len(o), 2);
            assert!(same_object(&map_lookup_string(o, "b").unwrap(), &pairs[1].1));
            assert!(map_lookup_string(o, "a").is_none());
        }
        other => panic!("{other:?}"),
    }
    let empty = new_map(h, &vec![]).unwrap();
    match &*empty {
        W_Root::CelMap(o) => assert_eq!(map_len(o), 0),
        other => panic!("{other:?}"),
    }

    let fields = vec![(new_string(h, &s("x")), new_int(h, 1))];
    let st = new_struct(h, s("T"), &fields).unwrap();
    match &*st {
        W_Root::Struct(o) => {
            assert!(same_object(&struct_lookup_field(o, "x").unwrap(), &fields[0].1));
            assert!(struct_lookup_field(o, "y").is_none());
        }
        other => panic!("{other:?}"),
    }
}

#[test]
fn a_cel_frame_is_the_virtualizable_activation_record() {
    let h = &mut CelHeap::new();
    let mut f = new_cel_frame(h, 2, 3);
    assert_eq!(f.vable_token, 0);
    assert_eq!(f.last_instr, -1);
    assert_eq!(f.valuestackdepth, 2);
    assert_eq!(f.n_slots, 2);
    assert_eq!(f.locals_stack_w.capacity(), 5);
    let a = new_int(h, 1);
    f.locals_stack_w.set(0, clone_ref(&a));
    assert!(same_object(&f.locals_stack_w.get(0), &a));
    assert!(f.locals_stack_w.get(1).is_none());
    let w = W_Root::Frame(f);
    assert_eq!(w_type(&w), CelClass::Frame);
    assert_eq!(w_kind(&w), CelKind::Frame);
}

#[test]
fn string_and_bytes_are_separate_classes() {
    let h = &mut CelHeap::new();
    let w = new_string(h, &s("x")).unwrap();
    let b = new_bytes(h, &Arc::new(b"x".to_vec())).unwrap();
    assert_ne!(w_type(&w), w_type(&b));
    assert_eq!(w_kind(&w), CelKind::Str);
    assert_eq!(w_kind(&b), CelKind::Bytes);
}

#[test]
fn payloads_survive_the_round_trip() {
    let h = &mut CelHeap::new();
    assert!(matches!(&*new_int(h, -9).unwrap(), W_Root::Int(o) if o.intval == -9));
    assert!(matches!(&*new_uint(h, 9).unwrap(), W_Root::UInt(o) if o.uintval == 9));
    let half = new_double(h, 0.5f64.to_bits()).unwrap();
    assert!(matches!(&*half, W_Root::Double(o) if f64::from_bits(o.floatval) == 0.5));
    assert!(matches!(&*new_bool(true).unwrap(), W_Root::Bool(o) if o.boolval == 1));
    assert!(matches!(&*new_bool(false).unwrap(), W_Root::Bool(o) if o.boolval == 0));
    assert!(matches!(&*new_duration(h, -3).unwrap(), W_Root::Duration(o) if o.nanos == -3));
    let t = new_timestamp(h, 11, -5).unwrap();
    assert!(matches!(&*t, W_Root::Timestamp(o) if (o.nanos, o.off_s) == (11, -5)));
}

#[test]
fn class_pointers_are_per_type_identities() {
    let classes = [
        CelClass::Int,
        CelClass::UInt,
        CelClass::Double,
        CelClass::Bool,
        CelClass::Null,
        CelClass::Duration,
        CelClass::Timestamp,
        CelClass::Type,
    ];
    for (i, a) in classes.iter().enumerate() {
        for b in &classes[i + 1..] {
            assert_ne!(a, b, "two classes are one");
            assert_ne!(a.name(), b.name());
        }
    }
    let h = &mut CelHeap::new();
    assert_eq!(w_type(&new_int(h, 1).unwrap()), w_type(&new_int(h, 2).unwrap()));
}

#[test]
fn a_type_values_own_class_is_type() {
    let h = &mut CelHeap::new();
    let int_type = new_type(h, CelClass::Int).unwrap();
    assert!(matches!(&*int_type, W_Root::Type(o) if o.cls == CelClass::Int));
    assert_eq!(w_type(&int_type), CelClass::Type);
    let string_stand_in = new_type(h, CelClass::Bool).unwrap();
    assert_eq!(w_type(&int_type), w_type(&string_stand_in), "every type value shares one class");
}

#[test]
fn kinds_come_off_the_class_word() {
    let h = &mut CelHeap::new();
    assert_eq!(w_kind(&new_int(h, 1).unwrap()), CelKind::Int);
    assert_eq!(w_kind(&new_uint(h, 1).unwrap()), CelKind::UInt);
    assert_eq!(w_kind(&new_null().unwrap()), CelKind::Null);
    assert_eq!(w_kind(&new_type(h, CelClass::Int).unwrap()), CelKind::Type);
}

#[test]
fn prebuilts_are_immortal_singletons() {
    let h = &mut CelHeap::new();
    assert_eq!(place(&new_bool(true)), place(&new_bool(true)));
    assert_eq!(place(&new_bool(false)), place(&new_bool(false)));
    assert_ne!(place(&new_bool(true)), place(&new_bool(false)));
    assert_eq!(place(&new_null()), place(&new_null()));
    assert_eq!(place(&new_int(h, 0)), place(&new_int(h, 0)));
    assert_eq!(place(&new_int(h, -5)), place(&new_int(h, -5)));
    assert_eq!(place(&new_int(h, 256)), place(&new_int(h, 256)));
    assert_ne!(place(&new_int(h, 0)), place(&new_int(h, 1)));

    for value in [-6i64, 257, 1000] {
        let w = place(&new_int(h, value));
        assert_ne!(w, place(&new_int(h, value)), "outside the table is not interned");
        assert!(!is_immortal(w), "a fresh int must not be registered as immortal");
    }
    let prebuilts = [
        place(&new_bool(true)),
        place(&new_bool(false)),
        place(&new_null()),
        place(&new_int(h, -5)),
        place(&new_int(h, 0)),
        place(&new_int(h, 256)),
    ];
    for p in prebuilts {
        assert!(is_immortal(p), "prebuilt {p:?}");
    }
}

#[test]
fn prebuilts_do_not_count_against_the_thread_heap() {
    let h = &mut CelHeap::new();
    let before = h.allocated_objects();
    let _ = new_bool(true);
    let _ = new_bool(false);
    let _ = new_null();
    let _ = new_int(h, 1);
    let _ = new_int(h, 2);
    let after = h.allocated_objects();
    assert_eq!(before, after);
    let _ = new_int(h, 1000);
    assert_eq!(h.allocated_objects(), after + 1);
}

#[test]
fn new_int_in_counts_against_the_given_heap() {
    let h = &mut CelHeap::new();
    let before = h.allocated_objects();
    let w = new_int_in(h, 1000);
    assert_eq!(h.allocated_objects(), before + 1);
    assert!(matches!(&**w.as_ref().unwrap(), W_Root::Int(o) if o.intval == 1000));
    let interned = new_int_in(h, 1);
    assert_eq!(h.allocated_objects(), before + 1);
    assert_eq!(place(&interned), place(&new_int(h, 1)));
}

#[test]
fn the_tokens_describe_the_blocks_they_name() {
    let word = std::mem::size_of::<usize>();
    assert_eq!(items_block_token().len_offset, 0);
    assert_eq!(items_block_token().base_size, word);
    assert_eq!(items_block_token().item_size, word);
    assert_eq!(bytes_block_token().len_offset, 0);
    assert_eq!(bytes_block_token().base_size, word);
    assert_eq!(bytes_block_token().item_size, 1);
}

#[test]
fn an_items_block_round_trips_its_references() {
    let h = &mut CelHeap::new();
    let values: Vec<CelRef> = (0..4).map(|i| new_int(h, i)).collect();
    let block = new_items_block(h, &values);
    assert_eq!(items_capacity(&block), 4);
    let base = items_block_items_base(&block);
    for (i, v) in values.iter().enumerate() {
        assert!(same_object(&base[i], v));
    }
    let zeroed = new_items_block_zeroed(h, 3);
    assert_eq!(items_capacity(&zeroed), 3);
    assert!(items_block_items_base(&zeroed).iter().all(|w| w.is_none()));
}

#[test]
fn a_bytes_block_round_trips_its_bytes() {
    let h = &mut CelHeap::new();
    let block = new_bytes_block(h, &Arc::new(b"hello".to_vec()));
    assert_eq!(bytes_capacity(&block), 5);
    assert_eq!(bytes_base(&block).as_slice(), b"hello");
}

#[test]
fn an_empty_block_is_allocated_and_reads_zero() {
    let h = &mut CelHeap::new();
    let before = h.allocated_objects();
    let items = new_items_block(h, &vec![]);
    assert_eq!(h.allocated_objects(), before + 1);
    assert_eq!(items_capacity(&items), 0);
    let bytes = new_bytes_block(h, &Arc::new(vec![]));
    assert_eq!(h.allocated_objects(), before + 2);
    assert_eq!(bytes_capacity(&bytes), 0);
}

#[test]
fn a_builder_refuses_what_is_over_its_capacity() {
    let h = &mut CelHeap::new();
    let leaf = new_list_with_capacity(h, 1);
    let (leaf, ok) = list_try_append(leaf, new_null());
    assert!(ok);
    let (leaf, ok) = list_try_append(leaf, new_null());
    assert!(!ok);
    assert_eq!(list_len(&leaf), 1);
    assert_eq!(w_type(&seal_list(leaf).unwrap()), CelClass::List);

    let none = new_map_with_capacity(h, -3);
    let (_, ok) = map_try_insert(none, new_null(), new_null());
    assert!(!ok);
    let leaf = new_map_with_capacity(h, 1);
    let (leaf, ok) = map_try_insert(leaf, new_string(h, &s("k")), new_null());
    assert!(ok);
    let (leaf, ok) = map_try_insert(leaf, new_string(h, &s("l")), new_null());
    assert!(!ok);
    assert!(map_lookup_string(&leaf, "k").is_some());
    assert!(map_lookup_string(&leaf, "l").is_none());
    assert_eq!(w_type(&seal_map(leaf).unwrap()), CelClass::CelMap);
}

#[test]
fn an_int_list_leaf_is_unboxed() {
    let h = &mut CelHeap::new();
    let w = new_list_ints(h, vec![4, 5, 6]).unwrap();
    assert_eq!(list_ints_slice(&w), Some([4i64, 5, 6].as_slice()));
    match &*w {
        W_Root::List(l) => {
            assert_eq!(list_int_at(l, 1), Some(5));
            assert_eq!(list_int_at(l, 3), None);
            let boxed = list_get(h, l, 2).unwrap();
            assert!(matches!(&*boxed.unwrap(), W_Root::Int(o) if o.intval == 6));
        }
        other => panic!("{other:?}"),
    }
    let column = new_int_column(h, vec![1, 2]);
    let windowed = new_list_window(h, column, 0, 2);
    assert_eq!(w_type(&windowed.unwrap()), CelClass::List);
}
