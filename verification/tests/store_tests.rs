use bptree_store::errors::StoreError;
use bptree_store::store::Store;

fn k(s: &str) -> Vec<u8> {
    s.as_bytes().to_vec()
}

#[test]
fn empty_store_has_no_keys() {
    let mut store = Store::new();
    let r = store.read();
    assert_eq!(store.get(r, &k("a")).unwrap(), None);
}

#[test]
fn snapshot_isolation_scenario() {
    let mut store = Store::new();
    let w = store.write().unwrap();
    store.set(w, k("k1"), k("v1")).unwrap();
    store.set(w, k("k2"), k("v2")).unwrap();
    store.commit(w).unwrap();
    let read1 = store.read();
    let w2 = store.write().unwrap();
    store.set(w2, k("k3"), k("v3")).unwrap();
    store.commit(w2).unwrap();
    let read2 = store.read();
    assert_eq!(store.get(read1, &k("k3")).unwrap(), None);
    assert_eq!(store.get(read1, &k("k1")).unwrap(), Some(k("v1")));
    assert_eq!(store.get(read2, &k("k3")).unwrap(), Some(k("v3")));
}

#[test]
fn snapshot_contents_survive_later_commits() {
    let mut store = Store::new();
    let w = store.write().unwrap();
    store.set(w, k("a"), k("1")).unwrap();
    store.commit(w).unwrap();
    let snap = store.read();
    let w2 = store.write().unwrap();
    store.set(w2, k("a"), k("2")).unwrap();
    store.set(w2, k("b"), k("3")).unwrap();
    store.delete(w2, &k("a")).unwrap();
    store.commit(w2).unwrap();
    assert_eq!(store.get(snap, &k("a")).unwrap(), Some(k("1")));
    assert_eq!(store.get(snap, &k("b")).unwrap(), None);
    let after = store.read();
    assert_eq!(store.get(after, &k("a")).unwrap(), None);
    assert_eq!(store.get(after, &k("b")).unwrap(), Some(k("3")));
}

#[test]
fn second_writer_fails_fast() {
    let mut store = Store::new();
    let w = store.write().unwrap();
    assert_eq!(store.write(), Err(StoreError::WriteSessionBusy));
    store.set(w, k("x"), k("1")).unwrap();
    store.commit(w).unwrap();
    let w2 = store.write().unwrap();
    store.abort(w2).unwrap();
}

#[test]
fn abort_discards_all_changes() {
    let mut store = Store::new();
    let w = store.write().unwrap();
    store.set(w, k("k"), k("v")).unwrap();
    store.abort(w).unwrap();
    let r = store.read();
    assert_eq!(store.get(r, &k("k")).unwrap(), None);
}

#[test]
fn abort_keeps_prior_value() {
    let mut store = Store::new();
    let w = store.write().unwrap();
    store.set(w, k("k"), k("old")).unwrap();
    store.commit(w).unwrap();
    let w2 = store.write().unwrap();
    store.set(w2, k("k"), k("new")).unwrap();
    store.abort(w2).unwrap();
    let r = store.read();
    assert_eq!(store.get(r, &k("k")).unwrap(), Some(k("old")));
}

#[test]
fn operations_on_committed_handle_fail() {
    let mut store = Store::new();
    let w = store.write().unwrap();
    store.set(w, k("k"), k("v")).unwrap();
    store.commit(w).unwrap();
    assert_eq!(store.set(w, k("k"), k("v2")), Err(StoreError::HandleRetired));
    assert_eq!(store.get(w, &k("k")), Err(StoreError::HandleRetired));
    assert_eq!(store.delete(w, &k("k")), Err(StoreError::HandleRetired));
    assert_eq!(store.commit(w), Err(StoreError::HandleRetired));
    assert_eq!(store.abort(w), Err(StoreError::HandleRetired));
    assert!(store.range(w, &k(""), &k("z")).is_err());
}

#[test]
fn operations_on_closed_snapshot_fail() {
    let mut store = Store::new();
    let r = store.read();
    store.close(r).unwrap();
    assert_eq!(store.get(r, &k("a")), Err(StoreError::HandleRetired));
    assert_eq!(store.close(r), Err(StoreError::HandleRetired));
    assert!(store.range(r, &k(""), &k("z")).is_err());
}

#[test]
fn abort_closes_a_snapshot_too() {
    let mut store = Store::new();
    let r = store.read();
    store.abort(r).unwrap();
    assert_eq!(store.get(r, &k("a")), Err(StoreError::HandleRetired));
    assert_eq!(store.abort(r), Err(StoreError::HandleRetired));
}

#[test]
fn unknown_handle_fails() {
    let mut store = Store::new();
    assert_eq!(store.get(999, &k("a")), Err(StoreError::HandleRetired));
    assert_eq!(store.commit(999), Err(StoreError::HandleRetired));
    assert_eq!(store.next(999), Err(StoreError::HandleRetired));
}

#[test]
fn range_yields_half_open_interval_in_order() {
    let mut store = Store::new();
    let w = store.write().unwrap();
    store.set(w, k("a"), k("1")).unwrap();
    store.set(w, k("b"), k("2")).unwrap();
    store.set(w, k("c"), k("3")).unwrap();
    store.commit(w).unwrap();
    let r = store.read();
    let c = store.range(r, &k("a"), &k("c")).unwrap();
    let first = store.next(c).unwrap();
    assert!(!first.done);
    let kv = first.value.unwrap();
    assert_eq!(kv.key, k("a"));
    assert_eq!(kv.value, k("1"));
    let second = store.next(c).unwrap();
    assert!(!second.done);
    let kv = second.value.unwrap();
    assert_eq!(kv.key, k("b"));
    assert_eq!(kv.value, k("2"));
    let third = store.next(c).unwrap();
    assert!(third.done);
    assert!(third.value.is_none());
    let fourth = store.next(c).unwrap();
    assert!(fourth.done);
    assert!(fourth.value.is_none());
}

#[test]
fn inverted_range_is_immediately_exhausted() {
    let mut store = Store::new();
    let w = store.write().unwrap();
    store.set(w, k("b"), k("2")).unwrap();
    store.commit(w).unwrap();
    let r = store.read();
    let c = store.range(r, &k("z"), &k("a")).unwrap();
    let step = store.next(c).unwrap();
    assert!(step.done);
    assert!(step.value.is_none());
}

#[test]
fn empty_range_when_bounds_are_equal() {
    let mut store = Store::new();
    let w = store.write().unwrap();
    store.set(w, k("a"), k("1")).unwrap();
    store.commit(w).unwrap();
    let r = store.read();
    let c = store.range(r, &k("a"), &k("a")).unwrap();
    let step = store.next(c).unwrap();
    assert!(step.done);
}

#[test]
fn cursor_fails_after_parent_retires() {
    let mut store = Store::new();
    let w = store.write().unwrap();
    store.set(w, k("a"), k("1")).unwrap();
    store.commit(w).unwrap();
    let r = store.read();
    let c = store.range(r, &k(""), &k("z")).unwrap();
    store.close(r).unwrap();
    assert_eq!(store.next(c), Err(StoreError::HandleRetired));
}

#[test]
fn cursor_entries_are_pinned_across_commits() {
    let mut store = Store::new();
    let w = store.write().unwrap();
    store.set(w, k("a"), k("1")).unwrap();
    store.commit(w).unwrap();
    let r = store.read();
    let c = store.range(r, &k(""), &k("z")).unwrap();
    let w2 = store.write().unwrap();
    store.set(w2, k("a"), k("changed")).unwrap();
    store.set(w2, k("b"), k("2")).unwrap();
    store.commit(w2).unwrap();
    let step = store.next(c).unwrap();
    assert!(!step.done);
    let kv = step.value.unwrap();
    assert_eq!(kv.key, k("a"));
    assert_eq!(kv.value, k("1"));
    let step = store.next(c).unwrap();
    assert!(step.done);
}

#[test]
fn write_session_reads_its_own_writes() {
    let mut store = Store::new();
    let w = store.write().unwrap();
    store.set(w, k("a"), k("1")).unwrap();
    assert_eq!(store.get(w, &k("a")).unwrap(), Some(k("1")));
    let c = store.range(w, &k(""), &k("z")).unwrap();
    let step = store.next(c).unwrap();
    assert!(!step.done);
    let kv = step.value.unwrap();
    assert_eq!(kv.key, k("a"));
    store.abort(w).unwrap();
}

#[test]
fn delete_of_absent_key_is_a_no_op() {
    let mut store = Store::new();
    let w = store.write().unwrap();
    store.delete(w, &k("missing")).unwrap();
    store.set(w, k("a"), k("1")).unwrap();
    store.delete(w, &k("a")).unwrap();
    assert_eq!(store.get(w, &k("a")).unwrap(), None);
    store.commit(w).unwrap();
    let r = store.read();
    assert_eq!(store.get(r, &k("a")).unwrap(), None);
}

#[test]
fn set_through_read_handle_is_refused() {
    let mut store = Store::new();
    let r = store.read();
    assert_eq!(store.set(r, k("a"), k("1")), Err(StoreError::HandleRetired));
    assert_eq!(store.delete(r, &k("a")), Err(StoreError::HandleRetired));
    assert_eq!(store.commit(r), Err(StoreError::HandleRetired));
}

#[test]
fn handles_are_never_reused() {
    let mut store = Store::new();
    let mut seen: Vec<u64> = Vec::new();
    let r1 = store.read();
    seen.push(r1);
    store.close(r1).unwrap();
    let w = store.write().unwrap();
    seen.push(w);
    store.abort(w).unwrap();
    let r2 = store.read();
    seen.push(r2);
    let c = store.range(r2, &k(""), &k("z")).unwrap();
    seen.push(c);
    let w2 = store.write().unwrap();
    seen.push(w2);
    for i in 0..seen.len() {
        for j in (i + 1)..seen.len() {
            assert_ne!(seen[i], seen[j]);
        }
    }
}

#[test]
fn overwrite_updates_the_value() {
    let mut store = Store::new();
    let w = store.write().unwrap();
    store.set(w, k("a"), k("1")).unwrap();
    store.set(w, k("a"), k("2")).unwrap();
    store.commit(w).unwrap();
    let r = store.read();
    assert_eq!(store.get(r, &k("a")).unwrap(), Some(k("2")));
}

#[test]
fn range_over_many_keys_is_sorted() {
    let mut store = Store::new();
    let w = store.write().unwrap();
    let keys = ["delta", "alpha", "echo", "charlie", "bravo"];
    for (i, name) in keys.iter().enumerate() {
        store.set(w, k(name), vec![i as u8]).unwrap();
    }
    store.commit(w).unwrap();
    let r = store.read();
    let c = store.range(r, &k("alpha"), &k("echo")).unwrap();
    let mut collected: Vec<Vec<u8>> = Vec::new();
    loop {
        let step = store.next(c).unwrap();
        if step.done {
            break;
        }
        collected.push(step.value.unwrap().key);
    }
    assert_eq!(collected, vec![k("alpha"), k("bravo"), k("charlie"), k("delta")]);
}
