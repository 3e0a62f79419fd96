use cel::runtime::convert::intern_leaf;
use cel::runtime::heap::{
    enter_eval_for, enter_eval_on, is_forcing_old, with_bind_region, with_old_space, BindRegionSlot,
    CelHeap, HostIndex, SEGMENT_BYTES,
};
use cel::runtime::object::{
    list_get, new_int, new_string, same_object, w_place, Host, Place, W_Root,
};
use cel::value::{HostObject, Value};
use std::sync::Arc;

fn offset(p: Place) -> usize {
    match p {
        Place::Old(_, o) | Place::Young(_, o) | Place::Region(_, _, o) => o,
        other => panic!("{other:?}"),
    }
}

#[test]
fn contains_reports_this_heaps_payloads() {
    let mut heap = CelHeap::new();
    let a = heap.alloc_raw(8, 8);
    assert!(heap.contains(a));
    let other = CelHeap::new();
    assert!(!other.contains(a));
}

#[test]
fn allocations_do_not_overlap() {
    let mut heap = CelHeap::new();
    let a = heap.alloc_raw(8, 8);
    let b = heap.alloc_raw(8, 8);
    assert_ne!(a, b);
    assert!(offset(a).abs_diff(offset(b)) >= 8);
}

#[test]
fn the_counter_counts_objects_not_segments() {
    let mut heap = CelHeap::new();
    for _ in 0..1000u64 {
        heap.alloc_raw(8, 8);
    }
    assert_eq!(heap.allocated_objects(), 1000);
    assert_eq!(heap.allocated_bytes(), 1000 * 8);
    assert_eq!(heap.segments(), 1, "1000 words fit in one segment");
}

#[test]
fn an_oversized_request_gets_its_own_segment() {
    let mut heap = CelHeap::new();
    heap.alloc_raw(8, 8);
    assert_eq!(heap.segments(), 1);
    heap.alloc_raw(SEGMENT_BYTES * 3, 8);
    assert_eq!(heap.segments(), 2, "the oversized request took a segment");
    heap.alloc_raw(8 + 8, 8);
    assert_eq!(heap.segments(), 3);
}

#[test]
fn every_allocation_is_aligned() {
    let mut heap = CelHeap::new();
    heap.alloc_raw(1, 1);
    for _ in 0..64 {
        let p = heap.alloc_raw(8, 8);
        assert_eq!(offset(p) % 8, 0);
    }
}

fn object(token: u64) -> Host {
    Host::Object(HostObject { runtime_type: Arc::new("u64".to_string()), token })
}

fn token(host: Option<&Host>) -> Option<u64> {
    match host {
        Some(Host::Object(o)) => Some(o.token),
        _ => None,
    }
}

#[test]
fn host_slots_round_trip_until_the_heap_drops() {
    let mut heap = CelHeap::new();
    let a = heap.push_host(object(7));
    let b = heap.push_host(object(8));
    assert_eq!(a, HostIndex::Old(0));
    assert_eq!(b, HostIndex::Old(1));
    assert_eq!(token(heap.host(a)), Some(7));
    assert_eq!(token(heap.host(b)), Some(8));
    assert!(heap.host(HostIndex::Old(2)).is_none());
    assert_eq!(heap.host_count(), 2);
    assert_eq!(heap.with_host(b, |h| token(Some(h))), Some(Some(8)));
    assert!(heap.with_host(HostIndex::Old(2), |_| ()).is_none());
}

#[test]
fn outermost_scope_resets_the_nursery() {
    let mut heap = CelHeap::new();
    let old = heap.alloc_raw(8, 8);
    assert!(heap.enter());
    let young = heap.alloc_raw(8, 8);
    assert!(heap.contains(young));
    assert!(heap.is_young(young));
    assert!(!heap.is_young(old));
    let bytes_during = heap.allocated_bytes();
    assert_eq!(heap.nursery_high_water(), 8);
    heap.leave(true);
    assert_eq!(heap.nursery_high_water(), 8);
    assert!(heap.contains(old));
    assert!(!heap.contains(young));
    assert!(heap.allocated_bytes() < bytes_during);
    assert!(heap.nursery_high_water() >= 8);
}

#[test]
fn young_fixed_size_counts_stay_exact() {
    let mut heap = CelHeap::new();
    assert!(heap.enter());
    let before_n = heap.allocated_objects();
    let before_b = heap.allocated_bytes();
    for _ in 0..64u64 {
        heap.alloc_raw(8, 8);
    }
    assert_eq!(heap.allocated_objects(), before_n + 64);
    assert_eq!(heap.allocated_bytes(), before_b + 64 * 8);
    heap.leave(true);
    assert_eq!(heap.allocated_objects(), before_n);
    assert_eq!(heap.allocated_bytes(), before_b);
}

#[test]
fn nested_scope_does_not_reset() {
    let mut heap = CelHeap::new();
    assert!(heap.enter());
    let a = heap.alloc_raw(8, 8);
    assert!(!heap.enter());
    let b = heap.alloc_raw(8, 8);
    heap.leave(false);
    assert!(heap.contains(a));
    assert!(heap.contains(b));
    heap.leave(true);
    assert!(!heap.contains(a));
    assert!(!heap.contains(b));
}

#[test]
fn enter_eval_on_tracks_depth_on_the_given_heap() {
    let mut heap = CelHeap::new();
    let scope = enter_eval_on(&mut heap);
    assert!(scope.is_outermost());
    assert_eq!(heap.eval_depth(), 1);
    scope.abandon(&mut heap);
    assert_eq!(heap.eval_depth(), 0);
}

#[test]
fn no_young_allocation_skips_reset() {
    let mut heap = CelHeap::new();
    let old = heap.alloc_raw(8, 8);
    let bytes = heap.allocated_bytes();
    assert!(heap.enter());
    heap.leave(true);
    assert_eq!(heap.allocated_bytes(), bytes);
    assert!(heap.contains(old));
}

#[test]
fn a_bind_region_is_contained_until_it_drops() {
    let heap = CelHeap::new();
    let mut slot = BindRegionSlot::empty();
    assert!(slot.is_none());
    let mut heap = heap;
    let id = slot.get_or_insert(&mut heap);
    let (mut heap, p) = with_bind_region(heap, id, |mut h| {
        let p = h.alloc_raw(8, 8);
        (h, p)
    });
    assert!(heap.contains(p));
    assert!(!heap.is_young(p));
    assert_eq!(heap.old_allocated_bytes(), 0);
    assert_eq!(heap.allocated_objects(), 1);
    slot.release(&mut heap);
    assert!(!heap.contains(p));
    assert_eq!(heap.allocated_objects(), 0);
}

#[test]
fn forcing_old_space_skips_the_nursery() {
    let mut heap = CelHeap::new();
    assert!(heap.enter());
    let (mut heap, p) = with_old_space(heap, |mut h| {
        assert!(is_forcing_old(&h));
        let p = h.alloc_raw(8, 8);
        (h, p)
    });
    assert!(!is_forcing_old(&heap));
    assert!(matches!(p, Place::Old(_, _)));
    let q = heap.alloc_old_raw(8, 8);
    assert!(matches!(q, Place::Old(_, _)));
    heap.leave(true);
    assert!(heap.contains(p));
    assert!(heap.contains(q));
}

#[test]
fn a_result_outlives_its_evaluation() {
    let mut heap = CelHeap::new();
    let slot = BindRegionSlot::empty();
    let scope = enter_eval_for(&slot, &mut heap);
    assert!(scope.is_outermost());
    let w = new_string(&mut heap, &Arc::new("kept".to_string()));
    let at = w_place(w.as_ref().unwrap());
    assert!(heap.is_young(at));
    let out = scope.finish(&mut heap, Value::Interned(w.unwrap()));
    assert!(!heap.contains(at));
    assert_eq!(out, Value::from("kept"));
    let small = new_int(&mut heap, 3).unwrap();
    let scope = enter_eval_on(&mut heap);
    let out = scope.finish(&mut heap, Value::Interned(small));
    assert_eq!(out, Value::Int(3));
}

#[test]
fn what_is_interned_into_old_space_outlives_the_evaluation() {
    let mut heap = CelHeap::new();
    assert!(heap.enter());
    let public = Value::from(vec![Value::from("kept"), Value::from(vec![Value::UInt(1)])]);
    let young = intern_leaf(&mut heap, &public).unwrap().unwrap();
    assert!(heap.is_young(w_place(&young)));
    // A leaf is its own, as long as nothing asks for old space.
    let again = intern_leaf(&mut heap, &Value::Interned(young.clone())).unwrap();
    assert!(same_object(&again, &Some(young.clone())));
    let (mut heap, copy) = with_old_space(heap, |mut h| {
        let copy = intern_leaf(&mut h, &Value::Interned(young.clone())).unwrap().unwrap();
        (h, copy)
    });
    assert!(!heap.is_young(w_place(&copy)));
    assert_ne!(w_place(&copy), w_place(&young));
    heap.leave(true);
    assert!(!heap.contains(w_place(&young)));
    assert!(heap.contains(w_place(&copy)));
    match &*copy {
        W_Root::List(l) => {
            for i in 0..2 {
                let item = list_get(&mut heap, l, i).unwrap().unwrap();
                assert!(heap.contains(w_place(&item)));
            }
        }
        other => panic!("{other:?}"),
    }
    assert_eq!(Value::Interned(copy.clone()), public);
    // What is old already is not copied.
    let (_, same) = with_old_space(heap, |mut h| {
        let same = intern_leaf(&mut h, &Value::Interned(copy.clone())).unwrap();
        (h, same)
    });
    assert!(same_object(&same, &Some(copy)));
}

#[test]
fn an_evaluation_leaves_nothing_behind() {
    let mut heap = CelHeap::new();
    heap.alloc_raw(8, 8);
    let kept = heap.push_host(object(1));
    let before = (heap.allocated_objects(), heap.allocated_bytes(), heap.host_count());
    assert!(heap.enter());
    heap.alloc_raw(24, 8);
    let young = heap.push_host(object(2));
    assert_eq!(young, HostIndex::Young(0));
    assert!(!heap.enter());
    heap.leave(false);
    assert_eq!(heap.host_count(), 2);
    heap.leave(true);
    let after = (heap.allocated_objects(), heap.allocated_bytes(), heap.host_count());
    assert_eq!(before, after);
    assert_eq!(token(heap.host(kept)), Some(1));
    assert!(heap.host(young).is_none());
    assert_eq!(heap.nursery_high_water(), 24);
}

#[test]
fn old_space_is_asked_for_and_released() {
    let mut heap = CelHeap::new();
    assert!(heap.enter());
    heap.request_old();
    assert_eq!(heap.old_requests(), 1);
    assert!(matches!(heap.alloc_raw(8, 8), Place::Old(_, _)));
    heap.release_old();
    assert!(matches!(heap.alloc_raw(8, 8), Place::Young(_, _)));
    heap.release_old();
    assert_eq!(heap.old_requests(), 0);
    heap.leave(true);
}
