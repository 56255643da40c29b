//! Trusted adapter around concread's copy-on-write B+tree.
//!
//! The canonical state, the pinned views of read transactions and the single
//! working copy all live inside `concread::bptree`. Every use the library
//! makes of them goes through the wrappers below; each wrapper's contract
//! states, over the uninterpreted content models, what concread's source and
//! documentation promise of that one call.

use vstd::prelude::*;

use std::fmt::Debug;
use std::ops::Range;

use concread::bptree::{BptreeMap, BptreeMapReadTxn, BptreeMapWriteTxn};

use crate::keys::{empty_contents, entries_view, is_range_seq, lex_lt};

verus! {

#[verifier::external_type_specification]
#[verifier::external_body]
#[verifier::reject_recursive_types(K)]
#[verifier::reject_recursive_types(V)]
pub struct ExBptreeMapReadTxn<'a, K, V>(BptreeMapReadTxn<'a, K, V>) where
    K: Ord + Clone + Debug + Sync + Send + 'static,
    V: Clone + Sync + Send + 'static,
;

#[verifier::external_type_specification]
#[verifier::external_body]
#[verifier::reject_recursive_types(K)]
#[verifier::reject_recursive_types(V)]
pub struct ExBptreeMapWriteTxn<'a, K, V>(BptreeMapWriteTxn<'a, K, V>) where
    K: Ord + Clone + Debug + Sync + Send + 'static,
    V: Clone + Sync + Send + 'static,
;

/// The canonical tree of one store.
///
/// The `BptreeMap` it refers to is allocated once per store and kept alive
/// for the rest of the process, so transactions derived from it never dangle
/// whatever the caller does with their handles. The map mutates behind a
/// shared reference (commits publish through it), so the struct is opaque to
/// the verifier and its contents are tracked solely through [`tree_model`]
/// by the wrappers below: every operation that changes the committed state
/// takes `&mut Tree`.
#[verifier::external_body]
pub struct Tree {
    map: &'static BptreeMap<Vec<u8>, Vec<u8>>,
}

pub uninterp spec fn tree_model(t: Tree) -> Map<Seq<u8>, Seq<u8>>;

/// The identity of the underlying map: which `BptreeMap` allocation a
/// `Tree` refers to. It never changes over the tree's life, and a working
/// copy may be committed or discarded only through the tree it came from.
pub uninterp spec fn tree_id(t: Tree) -> int;

/// Whether the map's single write slot is taken. The slot is a try-lock
/// inside concread; the store is the only holder of the map, so the slot
/// changes state only through the wrappers below.
pub uninterp spec fn tree_locked(t: Tree) -> bool;

/// The identity of the map a working copy was derived from.
pub uninterp spec fn work_source(w: BptreeMapWriteTxn<'static, Vec<u8>, Vec<u8>>) -> int;

pub uninterp spec fn snap_model(s: BptreeMapReadTxn<'static, Vec<u8>, Vec<u8>>) -> Map<
    Seq<u8>,
    Seq<u8>,
>;

pub uninterp spec fn work_model(w: BptreeMapWriteTxn<'static, Vec<u8>, Vec<u8>>) -> Map<
    Seq<u8>,
    Seq<u8>,
>;

/// Creates a store's canonical tree. Relies on concread's `BptreeMap::new`,
/// which constructs an empty map whose write slot is free.
#[verifier::external_body]
pub(crate) fn tree_new() -> (t: Tree)
    ensures
        tree_model(t) == empty_contents(),
        !tree_locked(t),
{
    Tree { map: Box::leak(Box::new(BptreeMap::new())) }
}

/// Opens a read transaction. Relies on concread's `BptreeMap::read`: the
/// transaction observes exactly the state committed before the call, and
/// that view never changes for the transaction's whole life.
#[verifier::external_body]
pub(crate) fn tree_read(t: &Tree) -> (s: BptreeMapReadTxn<'static, Vec<u8>, Vec<u8>>)
    ensures
        snap_model(s) == tree_model(*t),
{
    t.map.read()
}

/// Attempts to open the single write transaction. Relies on concread's
/// `BptreeMap::try_write`, a try-lock on the map's one write slot: it
/// yields a private working copy of the committed state whenever the slot
/// is free, and the slot stays taken until that copy is committed or
/// discarded.
#[verifier::external_body]
pub(crate) fn tree_try_write(t: &mut Tree) -> (w: Option<
    BptreeMapWriteTxn<'static, Vec<u8>, Vec<u8>>,
>)
    ensures
        tree_model(*final(t)) == tree_model(*old(t)),
        tree_id(*final(t)) == tree_id(*old(t)),
        !tree_locked(*old(t)) ==> w is Some,
        w matches Some(wt) ==> {
            &&& work_model(wt) == tree_model(*old(t))
            &&& work_source(wt) == tree_id(*old(t))
            &&& tree_locked(*final(t))
        },
        w is None ==> tree_locked(*final(t)) == tree_locked(*old(t)),
{
    t.map.try_write()
}

/// Publishes the working copy as the canonical state of the tree it came
/// from, and frees the write slot. Relies on concread's
/// `BptreeMapWriteTxn::commit`: the swap is atomic, read transactions opened
/// afterwards observe the working copy's contents, and ones opened before
/// keep their own view.
#[verifier::external_body]
pub(crate) fn tree_commit(t: &mut Tree, w: BptreeMapWriteTxn<'static, Vec<u8>, Vec<u8>>)
    requires
        work_source(w) == tree_id(*old(t)),
    ensures
        tree_model(*final(t)) == work_model(w),
        tree_id(*final(t)) == tree_id(*old(t)),
        !tree_locked(*final(t)),
{
    w.commit();
}

/// Discards a working copy of this tree without publishing it, freeing the
/// write slot. Relies on concread's rollback-on-drop: dropping a write
/// transaction leaves the canonical state untouched.
#[verifier::external_body]
pub(crate) fn work_discard(t: &mut Tree, w: BptreeMapWriteTxn<'static, Vec<u8>, Vec<u8>>)
    requires
        work_source(w) == tree_id(*old(t)),
    ensures
        tree_model(*final(t)) == tree_model(*old(t)),
        tree_id(*final(t)) == tree_id(*old(t)),
        !tree_locked(*final(t)),
{
    drop(w);
}

/// Reads one key from a read transaction. Relies on concread's
/// `BptreeMapReadTxn::get`.
#[verifier::external_body]
pub(crate) fn snap_get(s: &BptreeMapReadTxn<'static, Vec<u8>, Vec<u8>>, key: &Vec<u8>) -> (r:
    Option<Vec<u8>>)
    ensures
        r matches Some(v) ==> snap_model(*s).contains_key(key@) && snap_model(*s)[key@] == v@,
        r is None ==> !snap_model(*s).contains_key(key@),
{
    s.get(key).cloned()
}

/// Reads one key from the working copy. Relies on concread's
/// `BptreeMapWriteTxn::get`, which sees the session's own writes.
#[verifier::external_body]
pub(crate) fn work_get(w: &BptreeMapWriteTxn<'static, Vec<u8>, Vec<u8>>, key: &Vec<u8>) -> (r:
    Option<Vec<u8>>)
    ensures
        r matches Some(v) ==> work_model(*w).contains_key(key@) && work_model(*w)[key@] == v@,
        r is None ==> !work_model(*w).contains_key(key@),
{
    w.get(key).cloned()
}

/// Inserts or overwrites one key in the working copy. Relies on concread's
/// `BptreeMapWriteTxn::insert`.
#[verifier::external_body]
pub(crate) fn work_insert(
    w: &mut BptreeMapWriteTxn<'static, Vec<u8>, Vec<u8>>,
    key: Vec<u8>,
    value: Vec<u8>,
)
    ensures
        work_model(*final(w)) == work_model(*old(w)).insert(key@, value@),
        work_source(*final(w)) == work_source(*old(w)),
{
    let _ = w.insert(key, value);
}

/// Removes one key from the working copy; removing an absent key is a no-op.
/// Relies on concread's `BptreeMapWriteTxn::remove`.
#[verifier::external_body]
pub(crate) fn work_remove(w: &mut BptreeMapWriteTxn<'static, Vec<u8>, Vec<u8>>, key: &Vec<u8>)
    ensures
        work_model(*final(w)) == work_model(*old(w)).remove(key@),
        work_source(*final(w)) == work_source(*old(w)),
{
    let _ = w.remove(key);
}

/// Collects the entries of a read transaction whose keys lie in the
/// half-open range `[start, end)`, in ascending key order. Relies on
/// concread's `BptreeMapReadTxn::range`.
#[verifier::external_body]
pub(crate) fn snap_range(
    s: &BptreeMapReadTxn<'static, Vec<u8>, Vec<u8>>,
    start: &Vec<u8>,
    end: &Vec<u8>,
) -> (v: Vec<(Vec<u8>, Vec<u8>)>)
    requires
        !lex_lt(end@, start@),
    ensures
        is_range_seq(entries_view(v@), snap_model(*s), start@, end@),
{
    s.range(Range { start: start.clone(), end: end.clone() }).map(
        |kv: (&Vec<u8>, &Vec<u8>)| (kv.0.clone(), kv.1.clone()),
    ).collect()
}

/// Collects the entries of the working copy whose keys lie in the half-open
/// range `[start, end)`, in ascending key order. Relies on concread's
/// `BptreeMapWriteTxn::range`, which sees the session's own writes.
#[verifier::external_body]
pub(crate) fn work_range(
    w: &BptreeMapWriteTxn<'static, Vec<u8>, Vec<u8>>,
    start: &Vec<u8>,
    end: &Vec<u8>,
) -> (v: Vec<(Vec<u8>, Vec<u8>)>)
    requires
        !lex_lt(end@, start@),
    ensures
        is_range_seq(entries_view(v@), work_model(*w), start@, end@),
{
    w.range(Range { start: start.clone(), end: end.clone() }).map(
        |kv: (&Vec<u8>, &Vec<u8>)| (kv.0.clone(), kv.1.clone()),
    ).collect()
}

} // verus!
