//! Transaction objects: read snapshots and the single write session.

use vstd::prelude::*;

use concread::bptree::{BptreeMapReadTxn, BptreeMapWriteTxn};

use crate::cursor::ExternalRangeIterator;
use crate::errors::StoreError;
use crate::keys::{is_range_seq, lex_lt, lex_lt_bytes};
use crate::tree::{
    snap_get, snap_model, snap_range, tree_id, tree_locked, tree_model, tree_read,
    tree_try_write, work_get, work_insert, work_model, work_range, work_remove, work_source,
    Tree,
};

verus! {

/// A read transaction: an immutable point-in-time snapshot of the store.
///
/// Its observable contents are fixed at creation and survive every commit
/// made afterwards; closing it retires it permanently.
pub struct ReadOnlyTransaction {
    snap: Option<BptreeMapReadTxn<'static, Vec<u8>, Vec<u8>>>,
}

impl ReadOnlyTransaction {
    /// Whether the snapshot has not yet been retired.
    pub closed spec fn is_live(self) -> bool {
        self.snap is Some
    }

    /// The key-value contents the snapshot observes.
    pub closed spec fn model(self) -> Map<Seq<u8>, Seq<u8>> {
        snap_model(self.snap->Some_0)
    }

    /// Opens a snapshot of the tree's committed state.
    pub(crate) fn open(t: &Tree) -> (r: ReadOnlyTransaction)
        ensures
            r.is_live(),
            r.model() == tree_model(*t),
    {
        ReadOnlyTransaction { snap: Some(tree_read(t)) }
    }

    /// Reads one key; `None` when the snapshot does not hold it. Fails with
    /// `HandleRetired` exactly when the snapshot has been closed.
    pub fn get(&self, key: &Vec<u8>) -> (r: Result<Option<Vec<u8>>, StoreError>)
        ensures
            self.is_live() ==> {
                &&& r is Ok
                &&& (r->Ok_0 matches Some(v) ==> self.model().contains_key(key@)
                    && self.model()[key@] == v@)
                &&& (r->Ok_0 is None ==> !self.model().contains_key(key@))
            },
            !self.is_live() ==> r == Err::<Option<Vec<u8>>, StoreError>(StoreError::HandleRetired),
    {
        match &self.snap {
            Some(s) => Ok(snap_get(s, key)),
            None => Err(StoreError::HandleRetired),
        }
    }

    /// A fresh cursor over the keys in `[start, end)`; an inverted range
    /// yields an immediately exhausted cursor.
    pub(crate) fn range_entries(&self, start: &Vec<u8>, end: &Vec<u8>) -> (r:
        ExternalRangeIterator)
        requires
            self.is_live(),
        ensures
            r.wf(),
            !lex_lt(end@, start@) ==> is_range_seq(r.remaining(), self.model(), start@, end@),
            lex_lt(end@, start@) ==> r.remaining().len() == 0,
    {
        if lex_lt_bytes(end, start) {
            ExternalRangeIterator::exhausted()
        } else {
            match &self.snap {
                Some(s) => ExternalRangeIterator::from_entries(snap_range(s, start, end)),
                None => ExternalRangeIterator::exhausted(),
            }
        }
    }

    /// A fresh cursor over the keys in `[start, end)`, or `HandleRetired`
    /// exactly when the snapshot has been closed.
    pub fn entries_range(&self, start: &Vec<u8>, end: &Vec<u8>) -> (r: Result<
        ExternalRangeIterator,
        StoreError,
    >)
        ensures
            self.is_live() ==> {
                &&& r is Ok
                &&& r->Ok_0.wf()
                &&& (!lex_lt(end@, start@) ==> is_range_seq(
                    r->Ok_0.remaining(),
                    self.model(),
                    start@,
                    end@,
                ))
                &&& (lex_lt(end@, start@) ==> r->Ok_0.remaining().len() == 0)
            },
            !self.is_live() ==> r == Err::<ExternalRangeIterator, StoreError>(
                StoreError::HandleRetired,
            ),
    {
        if self.snap.is_some() {
            Ok(self.range_entries(start, end))
        } else {
            Err(StoreError::HandleRetired)
        }
    }

    /// Whether the snapshot has not yet been retired.
    pub fn is_open(&self) -> (r: bool)
        ensures
            r == self.is_live(),
    {
        self.snap.is_some()
    }

    /// Retires the snapshot and releases the tree version it pinned.
    pub(crate) fn retire(&mut self)
        ensures
            !final(self).is_live(),
    {
        self.snap = None;
    }
}

/// A write session: the store's single exclusive working copy.
///
/// It starts from the committed state at creation, observes its own writes,
/// and publishes them only at commit.
pub struct ReadWriteTransaction {
    work: BptreeMapWriteTxn<'static, Vec<u8>, Vec<u8>>,
}

impl ReadWriteTransaction {
    /// The contents of the session's working copy, its own writes included.
    pub closed spec fn model(self) -> Map<Seq<u8>, Seq<u8>> {
        work_model(self.work)
    }

    /// The identity of the tree this session's working copy came from.
    pub closed spec fn source(self) -> int {
        work_source(self.work)
    }

    /// Attempts to open the single write session. It succeeds whenever the
    /// tree's write slot is free, and holds the slot until the session is
    /// committed or discarded.
    pub(crate) fn open(t: &mut Tree) -> (r: Option<ReadWriteTransaction>)
        ensures
            tree_model(*final(t)) == tree_model(*old(t)),
            tree_id(*final(t)) == tree_id(*old(t)),
            !tree_locked(*old(t)) ==> r is Some,
            r matches Some(w) ==> {
                &&& w.model() == tree_model(*old(t))
                &&& w.source() == tree_id(*old(t))
                &&& tree_locked(*final(t))
            },
    {
        match tree_try_write(t) {
            Some(w) => Some(ReadWriteTransaction { work: w }),
            None => None,
        }
    }

    /// Reads one key from the working copy, the session's own writes
    /// included; `None` when the key is absent.
    pub fn get(&self, key: &Vec<u8>) -> (r: Option<Vec<u8>>)
        ensures
            r matches Some(v) ==> self.model().contains_key(key@) && self.model()[key@] == v@,
            r is None ==> !self.model().contains_key(key@),
    {
        work_get(&self.work, key)
    }

    /// Inserts or overwrites one key in the working copy.
    pub fn set(&mut self, key: Vec<u8>, value: Vec<u8>)
        ensures
            final(self).model() == old(self).model().insert(key@, value@),
            final(self).source() == old(self).source(),
    {
        work_insert(&mut self.work, key, value);
    }

    /// Removes one key from the working copy; removing an absent key is a
    /// no-op, not an error.
    pub fn delete(&mut self, key: &Vec<u8>)
        ensures
            final(self).model() == old(self).model().remove(key@),
            final(self).source() == old(self).source(),
    {
        work_remove(&mut self.work, key);
    }

    /// A fresh cursor over the keys in `[start, end)` of the working copy;
    /// an inverted range yields an immediately exhausted cursor.
    pub fn entries_range(&self, start: &Vec<u8>, end: &Vec<u8>) -> (r: ExternalRangeIterator)
        ensures
            r.wf(),
            !lex_lt(end@, start@) ==> is_range_seq(r.remaining(), self.model(), start@, end@),
            lex_lt(end@, start@) ==> r.remaining().len() == 0,
    {
        if lex_lt_bytes(end, start) {
            ExternalRangeIterator::exhausted()
        } else {
            ExternalRangeIterator::from_entries(work_range(&self.work, start, end))
        }
    }

    /// Surrenders the working copy so the store can publish or discard it.
    pub(crate) fn into_work(self) -> (w: BptreeMapWriteTxn<'static, Vec<u8>, Vec<u8>>)
        ensures
            work_model(w) == self.model(),
            work_source(w) == self.source(),
    {
        self.work
    }
}

} // verus!
