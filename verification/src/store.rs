//! The store and its handle registry.
//!
//! A [`Store`] owns the canonical tree and every transaction and cursor it
//! has handed out. The boundary surface works entirely over opaque `u64`
//! handles drawn from a monotonically increasing space: a handle is live
//! from creation until commit, abort or close retires it; a retired handle
//! is never reused for another object; and every operation is a checked
//! registry lookup that fails with `HandleRetired` instead of ever reaching
//! retired transaction state.

use vstd::prelude::*;

use crate::cursor::{ExternalRangeIterator, IteratorResult};
use crate::errors::StoreError;
use crate::keys::{empty_contents, is_range_seq, lex_lt};
use crate::tree::{tree_commit, tree_id, tree_locked, tree_model, tree_new, work_discard, Tree};
use crate::txn::{ReadOnlyTransaction, ReadWriteTransaction};

verus! {

/// A registry entry pairing a snapshot with its handle. A closed snapshot
/// keeps its entry, so its handle is never reissued.
struct ReadEntry {
    handle: u64,
    txn: ReadOnlyTransaction,
}

/// The registry entry of the single write session.
struct WriteEntry {
    handle: u64,
    txn: ReadWriteTransaction,
}

/// A registry entry pairing a cursor with its handle and with the handle of
/// the transaction it was derived from.
struct CursorEntry {
    handle: u64,
    parent: u64,
    iter: ExternalRangeIterator,
}

/// A versioned, copy-on-write key-value store addressed through opaque
/// handles.
///
/// Snapshots are isolated: their contents are pinned when they are created
/// and survive every later commit. At most one write session is live at a
/// time; a concurrent attempt fails fast with `WriteSessionBusy`. Commit
/// publishes the session's working copy atomically; abort and close discard
/// it and leave the committed state untouched.
pub struct Store {
    tree: Tree,
    reads: Vec<ReadEntry>,
    writer: Vec<WriteEntry>,
    cursors: Vec<CursorEntry>,
    next_handle: u64,
}

impl Store {
    /// The committed contents of the store.
    pub closed spec fn canonical(self) -> Map<Seq<u8>, Seq<u8>> {
        tree_model(self.tree)
    }

    /// Handles strictly below this bound have already been issued; a new
    /// handle is drawn at the bound, and the bound only grows.
    pub closed spec fn handle_bound(self) -> u64 {
        self.next_handle
    }

    /// Whether `h` was ever issued for a snapshot.
    pub closed spec fn is_read_handle(self, h: u64) -> bool {
        exists|i: int| 0 <= i < self.reads@.len() && (#[trigger] self.reads@[i]).handle == h
    }

    spec fn read_index(self, h: u64) -> int {
        choose|i: int| 0 <= i < self.reads@.len() && (#[trigger] self.reads@[i]).handle == h
    }

    /// Whether `h` denotes a snapshot that has not been retired.
    pub closed spec fn is_live_read(self, h: u64) -> bool {
        self.is_read_handle(h) && self.reads@[self.read_index(h)].txn.is_live()
    }

    /// The contents `h`'s snapshot observes.
    pub closed spec fn read_model(self, h: u64) -> Map<Seq<u8>, Seq<u8>> {
        self.reads@[self.read_index(h)].txn.model()
    }

    /// Whether a write session is active.
    pub closed spec fn writer_live(self) -> bool {
        self.writer@.len() == 1
    }

    /// Whether `h` denotes the active write session.
    pub closed spec fn is_live_writer(self, h: u64) -> bool {
        self.writer@.len() == 1 && self.writer@[0].handle == h
    }

    /// The contents of the active session's working copy.
    pub closed spec fn writer_model(self) -> Map<Seq<u8>, Seq<u8>> {
        self.writer@[0].txn.model()
    }

    /// Whether `h` denotes a live transaction of either kind.
    pub open spec fn is_live_handle(self, h: u64) -> bool {
        self.is_live_read(h) || self.is_live_writer(h)
    }

    /// The contents the transaction behind `h` observes.
    pub open spec fn handle_model(self, h: u64) -> Map<Seq<u8>, Seq<u8>> {
        if self.is_live_read(h) {
            self.read_model(h)
        } else {
            self.writer_model()
        }
    }

    /// Whether `c` was issued for a cursor.
    pub closed spec fn is_cursor(self, c: u64) -> bool {
        exists|i: int| 0 <= i < self.cursors@.len() && (#[trigger] self.cursors@[i]).handle == c
    }

    spec fn cursor_index(self, c: u64) -> int {
        choose|i: int| 0 <= i < self.cursors@.len() && (#[trigger] self.cursors@[i]).handle == c
    }

    /// The transaction handle the cursor `c` was derived from.
    pub closed spec fn cursor_parent(self, c: u64) -> u64 {
        self.cursors@[self.cursor_index(c)].parent
    }

    /// The entries the cursor `c` has not yet yielded.
    pub closed spec fn cursor_rest(self, c: u64) -> Seq<(Seq<u8>, Seq<u8>)> {
        self.cursors@[self.cursor_index(c)].iter.remaining()
    }

    /// A cursor can be stepped only while the transaction it was derived
    /// from is still live.
    pub open spec fn cursor_usable(self, c: u64) -> bool {
        self.is_cursor(c) && self.is_live_handle(self.cursor_parent(c))
    }

    /// Registry sanity: all handles are pairwise distinct and lie below the
    /// allocation bound, at most one write session exists and it holds the
    /// tree's write slot (the slot is free while no session is live), and
    /// every cursor is well formed.
    pub closed spec fn wf(self) -> bool {
        &&& self.writer@.len() == 0 ==> !tree_locked(self.tree)
        &&& self.writer@.len() == 1 ==> self.writer@[0].txn.source() == tree_id(self.tree)
        &&& forall|i: int, j: int|
            0 <= i < j < self.reads@.len() ==> (#[trigger] self.reads@[i]).handle != (
            #[trigger] self.reads@[j]).handle
        &&& forall|i: int|
            0 <= i < self.reads@.len() ==> (#[trigger] self.reads@[i]).handle < self.next_handle
        &&& self.writer@.len() <= 1
        &&& forall|i: int|
            0 <= i < self.writer@.len() ==> (#[trigger] self.writer@[i]).handle < self.next_handle
        &&& forall|i: int, j: int|
            0 <= i < j < self.cursors@.len() ==> (#[trigger] self.cursors@[i]).handle != (
            #[trigger] self.cursors@[j]).handle
        &&& forall|i: int|
            0 <= i < self.cursors@.len() ==> (#[trigger] self.cursors@[i]).handle
                < self.next_handle
        &&& forall|i: int| 0 <= i < self.cursors@.len() ==> (#[trigger] self.cursors@[i]).iter.wf()
        &&& forall|i: int, j: int|
            0 <= i < self.reads@.len() && 0 <= j < self.writer@.len() ==> (
            #[trigger] self.reads@[i]).handle != (#[trigger] self.writer@[j]).handle
        &&& forall|i: int, j: int|
            0 <= i < self.reads@.len() && 0 <= j < self.cursors@.len() ==> (
            #[trigger] self.reads@[i]).handle != (#[trigger] self.cursors@[j]).handle
        &&& forall|i: int, j: int|
            0 <= i < self.writer@.len() && 0 <= j < self.cursors@.len() ==> (
            #[trigger] self.writer@[i]).handle != (#[trigger] self.cursors@[j]).handle
    }

    /// The snapshot entry at a known position is the one its handle leads
    /// back to: handles are distinct, so lookup is unambiguous.
    proof fn lemma_read_index_of(self, h: u64, i: int)
        requires
            forall|p: int, q: int|
                0 <= p < q < self.reads@.len() ==> (#[trigger] self.reads@[p]).handle != (
                #[trigger] self.reads@[q]).handle,
            0 <= i < self.reads@.len(),
            self.reads@[i].handle == h,
        ensures
            self.is_read_handle(h),
            self.read_index(h) == i,
    {
        assert(self.is_read_handle(h));
        let j = self.read_index(h);
        assert(0 <= j < self.reads@.len() && self.reads@[j].handle == h);
        if i < j {
            assert(self.reads@[i].handle != self.reads@[j].handle);
        } else if j < i {
            assert(self.reads@[j].handle != self.reads@[i].handle);
        }
    }

    /// The cursor entry at a known position is the one its handle leads
    /// back to.
    proof fn lemma_cursor_index_of(self, c: u64, i: int)
        requires
            forall|p: int, q: int|
                0 <= p < q < self.cursors@.len() ==> (#[trigger] self.cursors@[p]).handle != (
                #[trigger] self.cursors@[q]).handle,
            0 <= i < self.cursors@.len(),
            self.cursors@[i].handle == c,
        ensures
            self.is_cursor(c),
            self.cursor_index(c) == i,
    {
        assert(self.is_cursor(c));
        let j = self.cursor_index(c);
        assert(0 <= j < self.cursors@.len() && self.cursors@[j].handle == c);
        if i < j {
            assert(self.cursors@[i].handle != self.cursors@[j].handle);
        } else if j < i {
            assert(self.cursors@[j].handle != self.cursors@[i].handle);
        }
    }

    /// Law: every handle the registry tracks lies strictly below the
    /// allocation bound, so a freshly drawn handle can never collide with a
    /// handle issued before it, retired ones included.
    pub proof fn lemma_handles_below_bound(self, h: u64)
        requires
            self.wf(),
            self.is_read_handle(h) || self.is_live_read(h) || self.is_live_writer(h)
                || self.is_cursor(h),
        ensures
            h < self.handle_bound(),
    {
        if self.is_read_handle(h) {
            let i = self.read_index(h);
            assert(0 <= i < self.reads@.len() && self.reads@[i].handle == h);
        }
        if self.is_cursor(h) {
            let i = self.cursor_index(h);
            assert(0 <= i < self.cursors@.len() && self.cursors@[i].handle == h);
        }
    }

    /// Law: a live snapshot handle is a recorded snapshot handle; closing
    /// it retires it but never erases the record, so the handle can never
    /// be reissued.
    pub proof fn lemma_live_read_is_read_handle(self, h: u64)
        ensures
            self.is_live_read(h) ==> self.is_read_handle(h),
    {
    }

    /// Law: a handle can denote the live write session only while a write
    /// session is active.
    pub proof fn lemma_live_writer_is_writer_live(self, h: u64)
        ensures
            self.is_live_writer(h) ==> self.writer_live(),
    {
    }

    /// Law: handle roles are disjoint — one handle never denotes two of a
    /// snapshot, the write session and a cursor at once.
    pub proof fn lemma_roles_disjoint(self, h: u64)
        requires
            self.wf(),
        ensures
            !(self.is_read_handle(h) && self.is_live_writer(h)),
            !(self.is_read_handle(h) && self.is_cursor(h)),
            !(self.is_live_writer(h) && self.is_cursor(h)),
    {
        if self.is_read_handle(h) {
            let i = self.read_index(h);
            assert(0 <= i < self.reads@.len() && self.reads@[i].handle == h);
            if self.is_live_writer(h) {
                assert(self.reads@[i].handle != self.writer@[0].handle);
            }
            if self.is_cursor(h) {
                let j = self.cursor_index(h);
                assert(0 <= j < self.cursors@.len() && self.cursors@[j].handle == h);
                assert(self.reads@[i].handle != self.cursors@[j].handle);
            }
        }
        if self.is_live_writer(h) && self.is_cursor(h) {
            let j = self.cursor_index(h);
            assert(0 <= j < self.cursors@.len() && self.cursors@[j].handle == h);
            assert(self.writer@[0].handle != self.cursors@[j].handle);
        }
    }

    /// Law: at most one write session is live at a time — two handles that
    /// both denote the live write session are the same handle.
    pub proof fn lemma_single_writer(self, h1: u64, h2: u64)
        requires
            self.is_live_writer(h1),
            self.is_live_writer(h2),
        ensures
            h1 == h2,
    {
    }

    /// Creates an empty store with no outstanding handles.
    pub fn new() -> (s: Store)
        ensures
            s.wf(),
            s.canonical() == empty_contents(),
            !s.writer_live(),
            forall|h: u64| !(#[trigger] s.is_read_handle(h)),
            forall|h: u64| !(#[trigger] s.is_live_read(h)),
            forall|h: u64| !(#[trigger] s.is_live_writer(h)),
            forall|c: u64| !(#[trigger] s.is_cursor(c)),
            s.handle_bound() == 0,
    {
        Store {
            tree: tree_new(),
            reads: Vec::new(),
            writer: Vec::new(),
            cursors: Vec::new(),
            next_handle: 0,
        }
    }

    /// Whether another handle can still be drawn. The handle space is never
    /// reused, so it is consumed monotonically; in practice it does not run
    /// out.
    pub fn handle_space_left(&self) -> (r: bool)
        ensures
            r == (self.handle_bound() < u64::MAX),
    {
        self.next_handle < u64::MAX
    }

    fn find_read(&self, h: u64) -> (r: Option<usize>)
        requires
            self.wf(),
        ensures
            match r {
                Some(i) => {
                    &&& i < self.reads@.len()
                    &&& self.reads@[i as int].handle == h
                    &&& self.is_read_handle(h)
                    &&& self.read_index(h) == i as int
                },
                None => !self.is_read_handle(h),
            },
    {
        let mut i: usize = 0;
        while i < self.reads.len()
            invariant
                self.wf(),
                i <= self.reads@.len(),
                forall|j: int| 0 <= j < i ==> (#[trigger] self.reads@[j]).handle != h,
            decreases self.reads@.len() - i,
        {
            if self.reads[i].handle == h {
                proof {
                    self.lemma_read_index_of(h, i as int);
                }
                return Some(i);
            }
            i = i + 1;
        }
        proof {
            if self.is_read_handle(h) {
                let j = self.read_index(h);
                assert(0 <= j < self.reads@.len() && self.reads@[j].handle == h);
            }
        }
        None
    }

    fn find_cursor(&self, c: u64) -> (r: Option<usize>)
        requires
            self.wf(),
        ensures
            match r {
                Some(i) => {
                    &&& i < self.cursors@.len()
                    &&& self.cursors@[i as int].handle == c
                    &&& self.is_cursor(c)
                    &&& self.cursor_index(c) == i as int
                },
                None => !self.is_cursor(c),
            },
    {
        let mut i: usize = 0;
        while i < self.cursors.len()
            invariant
                self.wf(),
                i <= self.cursors@.len(),
                forall|j: int| 0 <= j < i ==> (#[trigger] self.cursors@[j]).handle != c,
            decreases self.cursors@.len() - i,
        {
            if self.cursors[i].handle == c {
                proof {
                    self.lemma_cursor_index_of(c, i as int);
                }
                return Some(i);
            }
            i = i + 1;
        }
        proof {
            if self.is_cursor(c) {
                let j = self.cursor_index(c);
                assert(0 <= j < self.cursors@.len() && self.cursors@[j].handle == c);
            }
        }
        None
    }

    fn live_handle(&self, h: u64) -> (r: bool)
        requires
            self.wf(),
        ensures
            r == self.is_live_handle(h),
    {
        match self.find_read(h) {
            Some(i) => {
                let live = self.reads[i].txn.is_open();
                proof {
                    if self.writer@.len() == 1 && self.writer@[0].handle == h {
                        assert(self.reads@[i as int].handle != self.writer@[0].handle);
                    }
                }
                live
            },
            None => {
                if self.writer.len() > 0 {
                    self.writer[0].handle == h
                } else {
                    false
                }
            },
        }
    }

    /// Opens a snapshot of the current committed state and returns its
    /// fresh handle. The snapshot's contents never change afterwards,
    /// whatever is committed later.
    pub fn read(&mut self) -> (h: u64)
        requires
            old(self).wf(),
            old(self).handle_bound() < u64::MAX,
        ensures
            final(self).wf(),
            h == old(self).handle_bound(),
            final(self).handle_bound() == old(self).handle_bound() + 1,
            final(self).is_live_read(h),
            final(self).read_model(h) == old(self).canonical(),
            final(self).canonical() == old(self).canonical(),
            reads_frame_except(*old(self), *final(self), h),
            writer_frame(*old(self), *final(self)),
            cursors_frame(*old(self), *final(self)),
    {
        let h = self.next_handle;
        let txn = ReadOnlyTransaction::open(&self.tree);
        self.reads.push(ReadEntry { handle: h, txn });
        self.next_handle = self.next_handle + 1;
        proof {
            lemma_reads_push(*old(self), *self);
            lemma_cursors_same_frames(*old(self), *self);
        }
        h
    }

    /// Opens the single write session and returns its fresh handle, unless
    /// a session is already live. Fail-fast single-writer policy: while a
    /// session is live the attempt returns `WriteSessionBusy` instead of
    /// blocking; once that session is committed, aborted or closed, the
    /// next attempt succeeds.
    pub fn write(&mut self) -> (r: Result<u64, StoreError>)
        requires
            old(self).wf(),
            old(self).writer_live() || old(self).handle_bound() < u64::MAX,
        ensures
            final(self).wf(),
            old(self).writer_live() ==> r == Err::<u64, StoreError>(StoreError::WriteSessionBusy),
            !old(self).writer_live() ==> r is Ok,
            r is Err ==> r == Err::<u64, StoreError>(StoreError::WriteSessionBusy) && *final(self)
                == *old(self),
            r is Ok ==> {
                &&& !old(self).writer_live()
                &&& r->Ok_0 == old(self).handle_bound()
                &&& final(self).handle_bound() == old(self).handle_bound() + 1
                &&& final(self).is_live_writer(r->Ok_0)
                &&& final(self).writer_model() == old(self).canonical()
            },
            final(self).canonical() == old(self).canonical(),
            reads_frame(*old(self), *final(self)),
            cursors_frame(*old(self), *final(self)),
    {
        if self.writer.len() > 0 {
            return Err(StoreError::WriteSessionBusy);
        }
        match ReadWriteTransaction::open(&mut self.tree) {
            Some(txn) => {
                let h = self.next_handle;
                self.writer.push(WriteEntry { handle: h, txn });
                self.next_handle = self.next_handle + 1;
                proof {
                    lemma_writer_push(*old(self), *self);
                    lemma_reads_same_frames(*old(self), *self);
                    lemma_cursors_same_frames(*old(self), *self);
                }
                Ok(h)
            },
            None => {
                proof {
                    assert(false);
                }
                Err(StoreError::WriteSessionBusy)
            },
        }
    }

    /// Reads one key through a transaction handle. A snapshot observes its
    /// pinned contents; the write session observes its own writes. Fails
    /// with `HandleRetired` exactly when the handle denotes no live
    /// transaction.
    pub fn get(&self, handle: u64, key: &Vec<u8>) -> (r: Result<Option<Vec<u8>>, StoreError>)
        requires
            self.wf(),
        ensures
            self.is_live_handle(handle) ==> {
                &&& r is Ok
                &&& (r->Ok_0 matches Some(v) ==> self.handle_model(handle).contains_key(key@)
                    && self.handle_model(handle)[key@] == v@)
                &&& (r->Ok_0 is None ==> !self.handle_model(handle).contains_key(key@))
            },
            !self.is_live_handle(handle) ==> r == Err::<Option<Vec<u8>>, StoreError>(
                StoreError::HandleRetired,
            ),
    {
        match self.find_read(handle) {
            Some(i) => {
                proof {
                    if self.writer@.len() == 1 && self.writer@[0].handle == handle {
                        assert(self.reads@[i as int].handle != self.writer@[0].handle);
                    }
                }
                self.reads[i].txn.get(key)
            },
            None => {
                if self.writer.len() > 0 {
                    if self.writer[0].handle == handle {
                        Ok(self.writer[0].txn.get(key))
                    } else {
                        Err(StoreError::HandleRetired)
                    }
                } else {
                    Err(StoreError::HandleRetired)
                }
            },
        }
    }

    /// Inserts or overwrites one key in the write session addressed by
    /// `handle`. Fails with `HandleRetired` exactly when `handle` does not
    /// denote the live write session.
    pub fn set(&mut self, handle: u64, key: Vec<u8>, value: Vec<u8>) -> (r: Result<
        (),
        StoreError,
    >)
        requires
            old(self).wf(),
        ensures
            final(self).wf(),
            old(self).is_live_writer(handle) ==> {
                &&& r is Ok
                &&& final(self).is_live_writer(handle)
                &&& final(self).writer_model() == old(self).writer_model().insert(key@, value@)
            },
            !old(self).is_live_writer(handle) ==> r == Err::<(), StoreError>(
                StoreError::HandleRetired,
            ) && *final(self) == *old(self),
            final(self).canonical() == old(self).canonical(),
            final(self).handle_bound() == old(self).handle_bound(),
            reads_frame(*old(self), *final(self)),
            cursors_frame(*old(self), *final(self)),
    {
        if self.writer.len() > 0 {
            if self.writer[0].handle == handle {
                let mut e = self.writer.pop().unwrap();
                e.txn.set(key, value);
                self.writer.push(e);
                proof {
                    lemma_writer_update(*old(self), *self);
                    lemma_reads_same_frames(*old(self), *self);
                    lemma_cursors_same_frames(*old(self), *self);
                }
                return Ok(());
            }
        }
        Err(StoreError::HandleRetired)
    }

    /// Removes one key in the write session addressed by `handle`; removing
    /// an absent key is a no-op, not an error. Fails with `HandleRetired`
    /// exactly when `handle` does not denote the live write session.
    pub fn delete(&mut self, handle: u64, key: &Vec<u8>) -> (r: Result<(), StoreError>)
        requires
            old(self).wf(),
        ensures
            final(self).wf(),
            old(self).is_live_writer(handle) ==> {
                &&& r is Ok
                &&& final(self).is_live_writer(handle)
                &&& final(self).writer_model() == old(self).writer_model().remove(key@)
            },
            !old(self).is_live_writer(handle) ==> r == Err::<(), StoreError>(
                StoreError::HandleRetired,
            ) && *final(self) == *old(self),
            final(self).canonical() == old(self).canonical(),
            final(self).handle_bound() == old(self).handle_bound(),
            reads_frame(*old(self), *final(self)),
            cursors_frame(*old(self), *final(self)),
    {
        if self.writer.len() > 0 {
            if self.writer[0].handle == handle {
                let mut e = self.writer.pop().unwrap();
                e.txn.delete(key);
                self.writer.push(e);
                proof {
                    lemma_writer_update(*old(self), *self);
                    lemma_reads_same_frames(*old(self), *self);
                    lemma_cursors_same_frames(*old(self), *self);
                }
                return Ok(());
            }
        }
        Err(StoreError::HandleRetired)
    }

    /// Publishes the write session's working copy as the committed state
    /// and retires its handle. The swap is atomic: snapshots opened after
    /// this call observe every write of the session, snapshots opened
    /// before keep their pinned contents untouched.
    pub fn commit(&mut self, handle: u64) -> (r: Result<(), StoreError>)
        requires
            old(self).wf(),
        ensures
            final(self).wf(),
            old(self).is_live_writer(handle) ==> {
                &&& r is Ok
                &&& final(self).canonical() == old(self).writer_model()
                &&& !final(self).writer_live()
                &&& forall|h: u64| !(#[trigger] final(self).is_live_writer(h))
            },
            !old(self).is_live_writer(handle) ==> r == Err::<(), StoreError>(
                StoreError::HandleRetired,
            ) && *final(self) == *old(self),
            final(self).handle_bound() == old(self).handle_bound(),
            reads_frame(*old(self), *final(self)),
            cursors_frame(*old(self), *final(self)),
    {
        if self.writer.len() > 0 {
            if self.writer[0].handle == handle {
                let e = self.writer.pop().unwrap();
                tree_commit(&mut self.tree, e.txn.into_work());
                proof {
                    lemma_writer_pop(*old(self), *self);
                    lemma_reads_same_frames(*old(self), *self);
                    lemma_cursors_same_frames(*old(self), *self);
                }
                return Ok(());
            }
        }
        Err(StoreError::HandleRetired)
    }

    /// Retires the handle's transaction without publishing anything: a
    /// write session's working copy is discarded and the committed state
    /// stays exactly as it was; a snapshot is closed and its pinned tree
    /// version released. Fails with `HandleRetired` exactly when the handle
    /// denotes no live transaction, so closing twice reports the misuse.
    pub fn close(&mut self, handle: u64) -> (r: Result<(), StoreError>)
        requires
            old(self).wf(),
        ensures
            final(self).wf(),
            old(self).is_live_read(handle) ==> {
                &&& r is Ok
                &&& !final(self).is_live_read(handle)
                &&& final(self).is_read_handle(handle)
                &&& !final(self).is_live_handle(handle)
                &&& writer_frame(*old(self), *final(self))
            },
            old(self).is_live_writer(handle) ==> {
                &&& r is Ok
                &&& !final(self).writer_live()
                &&& forall|h: u64| !(#[trigger] final(self).is_live_writer(h))
                &&& reads_frame(*old(self), *final(self))
            },
            !old(self).is_live_handle(handle) ==> r == Err::<(), StoreError>(
                StoreError::HandleRetired,
            ) && *final(self) == *old(self),
            final(self).canonical() == old(self).canonical(),
            final(self).handle_bound() == old(self).handle_bound(),
            reads_frame_except(*old(self), *final(self), handle),
            cursors_frame(*old(self), *final(self)),
    {
        match self.find_read(handle) {
            Some(i) => {
                proof {
                    if self.writer@.len() == 1 && self.writer@[0].handle == handle {
                        assert(self.reads@[i as int].handle != self.writer@[0].handle);
                    }
                }
                if self.reads[i].txn.is_open() {
                    let e = &mut self.reads[i];
                    e.txn.retire();
                    proof {
                        lemma_reads_update(*old(self), *self, i as int);
                        lemma_cursors_same_frames(*old(self), *self);
                    }
                    Ok(())
                } else {
                    Err(StoreError::HandleRetired)
                }
            },
            None => {
                if self.writer.len() > 0 {
                    if self.writer[0].handle == handle {
                        let e = self.writer.pop().unwrap();
                        work_discard(&mut self.tree, e.txn.into_work());
                        proof {
                            lemma_writer_pop(*old(self), *self);
                            lemma_reads_same_frames(*old(self), *self);
                            lemma_cursors_same_frames(*old(self), *self);
                        }
                        return Ok(());
                    }
                }
                Err(StoreError::HandleRetired)
            },
        }
    }

    /// Discards the handle's transaction: identical to [`Store::close`].
    /// Dropping a write session this way never publishes a partial commit.
    pub fn abort(&mut self, handle: u64) -> (r: Result<(), StoreError>)
        requires
            old(self).wf(),
        ensures
            final(self).wf(),
            old(self).is_live_read(handle) ==> r is Ok && !final(self).is_live_read(handle)
                && final(self).is_read_handle(handle) && !final(self).is_live_handle(handle)
                && writer_frame(*old(self), *final(self)),
            old(self).is_live_writer(handle) ==> {
                &&& r is Ok
                &&& !final(self).writer_live()
                &&& forall|h: u64| !(#[trigger] final(self).is_live_writer(h))
                &&& reads_frame(*old(self), *final(self))
            },
            !old(self).is_live_handle(handle) ==> r == Err::<(), StoreError>(
                StoreError::HandleRetired,
            ) && *final(self) == *old(self),
            final(self).canonical() == old(self).canonical(),
            final(self).handle_bound() == old(self).handle_bound(),
            reads_frame_except(*old(self), *final(self), handle),
            cursors_frame(*old(self), *final(self)),
    {
        self.close(handle)
    }

    /// Opens a cursor over the keys in `[start, end)` of the transaction
    /// addressed by `handle` and returns the cursor's fresh handle. The
    /// entries are captured at creation, in ascending key order; an
    /// inverted range yields an immediately exhausted cursor. Fails with
    /// `HandleRetired` exactly when `handle` denotes no live transaction.
    pub fn range(&mut self, handle: u64, start: &Vec<u8>, end: &Vec<u8>) -> (r: Result<
        u64,
        StoreError,
    >)
        requires
            old(self).wf(),
            old(self).handle_bound() < u64::MAX,
        ensures
            final(self).wf(),
            old(self).is_live_handle(handle) ==> {
                &&& r is Ok
                &&& r->Ok_0 == old(self).handle_bound()
                &&& final(self).handle_bound() == old(self).handle_bound() + 1
                &&& final(self).is_cursor(r->Ok_0)
                &&& final(self).cursor_parent(r->Ok_0) == handle
                &&& final(self).cursor_usable(r->Ok_0)
                &&& (!lex_lt(end@, start@) ==> is_range_seq(
                    final(self).cursor_rest(r->Ok_0),
                    old(self).handle_model(handle),
                    start@,
                    end@,
                ))
                &&& (lex_lt(end@, start@) ==> final(self).cursor_rest(r->Ok_0).len() == 0)
            },
            !old(self).is_live_handle(handle) ==> r == Err::<u64, StoreError>(
                StoreError::HandleRetired,
            ) && *final(self) == *old(self),
            final(self).canonical() == old(self).canonical(),
            reads_frame(*old(self), *final(self)),
            writer_frame(*old(self), *final(self)),
            cursors_frame_except(*old(self), *final(self), old(self).handle_bound()),
    {
        let iter_opt: Option<ExternalRangeIterator> = match self.find_read(handle) {
            Some(i) => {
                proof {
                    if self.writer@.len() == 1 && self.writer@[0].handle == handle {
                        assert(self.reads@[i as int].handle != self.writer@[0].handle);
                    }
                }
                if self.reads[i].txn.is_open() {
                    Some(self.reads[i].txn.range_entries(start, end))
                } else {
                    None
                }
            },
            None => {
                if self.writer.len() > 0 {
                    if self.writer[0].handle == handle {
                        Some(self.writer[0].txn.entries_range(start, end))
                    } else {
                        None
                    }
                } else {
                    None
                }
            },
        };
        match iter_opt {
            None => Err(StoreError::HandleRetired),
            Some(iter) => {
                let c = self.next_handle;
                self.cursors.push(CursorEntry { handle: c, parent: handle, iter });
                self.next_handle = self.next_handle + 1;
                proof {
                    lemma_cursors_push(*old(self), *self);
                    lemma_reads_same_frames(*old(self), *self);
                }
                Ok(c)
            },
        }
    }

    /// Steps the cursor addressed by `c`: yields the next entry in
    /// ascending key order, or reports `done` once the upper bound has been
    /// passed, permanently. Fails with `HandleRetired` exactly when `c`
    /// denotes no cursor or the cursor's parent transaction has been
    /// retired.
    pub fn next(&mut self, c: u64) -> (r: Result<IteratorResult, StoreError>)
        requires
            old(self).wf(),
        ensures
            final(self).wf(),
            old(self).cursor_usable(c) ==> {
                &&& r is Ok
                &&& final(self).is_cursor(c)
                &&& final(self).cursor_parent(c) == old(self).cursor_parent(c)
                &&& (old(self).cursor_rest(c).len() == 0 ==> {
                    &&& r->Ok_0.done
                    &&& r->Ok_0.value is None
                    &&& final(self).cursor_rest(c) == old(self).cursor_rest(c)
                })
                &&& (old(self).cursor_rest(c).len() > 0 ==> {
                    &&& !r->Ok_0.done
                    &&& (r->Ok_0.value matches Some(kv) && kv.key@ == old(self).cursor_rest(c)[0].0
                        && kv.value@ == old(self).cursor_rest(c)[0].1)
                    &&& final(self).cursor_rest(c) == old(self).cursor_rest(c).drop_first()
                })
            },
            !old(self).cursor_usable(c) ==> r == Err::<IteratorResult, StoreError>(
                StoreError::HandleRetired,
            ) && *final(self) == *old(self),
            final(self).canonical() == old(self).canonical(),
            final(self).handle_bound() == old(self).handle_bound(),
            reads_frame(*old(self), *final(self)),
            writer_frame(*old(self), *final(self)),
            cursors_frame_except(*old(self), *final(self), c),
    {
        match self.find_cursor(c) {
            None => Err(StoreError::HandleRetired),
            Some(i) => {
                let parent = self.cursors[i].parent;
                if !self.live_handle(parent) {
                    Err(StoreError::HandleRetired)
                } else {
                    let e = &mut self.cursors[i];
                    let res = e.iter.next();
                    proof {
                        lemma_cursors_update(*old(self), *self, i as int);
                        lemma_reads_same_frames(*old(self), *self);
                    }
                    Ok(res)
                }
            },
        }
    }
}

/// Every snapshot handle keeps its status and, while live, its contents.
pub open spec fn reads_frame(pre: Store, post: Store) -> bool {
    forall|h: u64|
        #![trigger pre.is_read_handle(h)]
        #![trigger post.is_read_handle(h)]
        #![trigger pre.is_live_read(h)]
        #![trigger post.is_live_read(h)]
        {
            &&& post.is_read_handle(h) == pre.is_read_handle(h)
            &&& post.is_live_read(h) == pre.is_live_read(h)
            &&& (pre.is_live_read(h) ==> post.read_model(h) == pre.read_model(h))
        }
}

/// Every snapshot handle other than `except` keeps its status and, while
/// live, its contents.
pub open spec fn reads_frame_except(pre: Store, post: Store, except: u64) -> bool {
    forall|h: u64|
        #![trigger pre.is_read_handle(h)]
        #![trigger post.is_read_handle(h)]
        #![trigger pre.is_live_read(h)]
        #![trigger post.is_live_read(h)]
        h != except ==> {
            &&& post.is_read_handle(h) == pre.is_read_handle(h)
            &&& post.is_live_read(h) == pre.is_live_read(h)
            &&& (pre.is_live_read(h) ==> post.read_model(h) == pre.read_model(h))
        }
}

/// The write session's status, handle and contents are unchanged.
pub open spec fn writer_frame(pre: Store, post: Store) -> bool {
    &&& post.writer_live() == pre.writer_live()
    &&& forall|h: u64|
        #![trigger pre.is_live_writer(h)]
        #![trigger post.is_live_writer(h)]
        post.is_live_writer(h) == pre.is_live_writer(h)
    &&& (pre.writer_live() ==> post.writer_model() == pre.writer_model())
}

/// Every cursor handle keeps its status, its parent and its pending
/// entries.
pub open spec fn cursors_frame(pre: Store, post: Store) -> bool {
    forall|c: u64|
        #![trigger pre.is_cursor(c)]
        #![trigger post.is_cursor(c)]
        {
            &&& post.is_cursor(c) == pre.is_cursor(c)
            &&& (pre.is_cursor(c) ==> post.cursor_parent(c) == pre.cursor_parent(c)
                && post.cursor_rest(c) == pre.cursor_rest(c))
        }
}

/// Every cursor handle other than `except` keeps its status, its parent and
/// its pending entries.
pub open spec fn cursors_frame_except(pre: Store, post: Store, except: u64) -> bool {
    forall|c: u64|
        #![trigger pre.is_cursor(c)]
        #![trigger post.is_cursor(c)]
        c != except ==> {
            &&& post.is_cursor(c) == pre.is_cursor(c)
            &&& (pre.is_cursor(c) ==> post.cursor_parent(c) == pre.cursor_parent(c)
                && post.cursor_rest(c) == pre.cursor_rest(c))
        }
}

proof fn lemma_reads_same_frames(pre: Store, post: Store)
    requires
        forall|p: int, q: int|
            0 <= p < q < pre.reads@.len() ==> (#[trigger] pre.reads@[p]).handle != (
            #[trigger] pre.reads@[q]).handle,
        post.reads@ == pre.reads@,
    ensures
        reads_frame(pre, post),
{
    assert forall|h: u64| true implies {
        &&& post.is_read_handle(h) == pre.is_read_handle(h)
        &&& post.is_live_read(h) == pre.is_live_read(h)
        &&& (pre.is_live_read(h) ==> post.read_model(h) == pre.read_model(h))
    } by {
        if pre.is_read_handle(h) {
            let i = pre.read_index(h);
            assert(0 <= i < pre.reads@.len() && pre.reads@[i].handle == h);
            assert(post.reads@[i].handle == h);
            post.lemma_read_index_of(h, i);
            pre.lemma_read_index_of(h, i);
        } else {
            if post.is_read_handle(h) {
                let i = post.read_index(h);
                assert(0 <= i < post.reads@.len() && post.reads@[i].handle == h);
                assert(pre.reads@[i].handle == h);
                assert(pre.is_read_handle(h));
            }
        }
    }
}

proof fn lemma_cursors_same_frames(pre: Store, post: Store)
    requires
        forall|p: int, q: int|
            0 <= p < q < pre.cursors@.len() ==> (#[trigger] pre.cursors@[p]).handle != (
            #[trigger] pre.cursors@[q]).handle,
        post.cursors@ == pre.cursors@,
    ensures
        cursors_frame(pre, post),
{
    assert forall|c: u64| true implies {
        &&& post.is_cursor(c) == pre.is_cursor(c)
        &&& (pre.is_cursor(c) ==> post.cursor_parent(c) == pre.cursor_parent(c)
            && post.cursor_rest(c) == pre.cursor_rest(c))
    } by {
        if pre.is_cursor(c) {
            let i = pre.cursor_index(c);
            assert(0 <= i < pre.cursors@.len() && pre.cursors@[i].handle == c);
            assert(post.cursors@[i].handle == c);
            post.lemma_cursor_index_of(c, i);
            pre.lemma_cursor_index_of(c, i);
        } else {
            if post.is_cursor(c) {
                let i = post.cursor_index(c);
                assert(0 <= i < post.cursors@.len() && post.cursors@[i].handle == c);
                assert(pre.cursors@[i].handle == c);
                assert(pre.is_cursor(c));
            }
        }
    }
}

proof fn lemma_reads_push(pre: Store, post: Store)
    requires
        pre.wf(),
        post.reads@.len() == pre.reads@.len() + 1,
        forall|k: int| 0 <= k < pre.reads@.len() ==> post.reads@[k] == pre.reads@[k],
        post.reads@[pre.reads@.len() as int].handle == pre.next_handle,
        post.writer@ == pre.writer@,
        post.cursors@ == pre.cursors@,
        post.tree == pre.tree,
        post.next_handle == pre.next_handle + 1,
    ensures
        post.wf(),
        reads_frame_except(pre, post, pre.next_handle),
        post.is_read_handle(pre.next_handle),
        post.read_index(pre.next_handle) == pre.reads@.len() as int,
        writer_frame(pre, post),
{
    let n = pre.reads@.len() as int;
    let h = pre.next_handle;
    assert forall|p: int, q: int| 0 <= p < q < post.reads@.len() implies (
    #[trigger] post.reads@[p]).handle != (#[trigger] post.reads@[q]).handle by {
        if q < n {
            assert(post.reads@[p] == pre.reads@[p]);
            assert(post.reads@[q] == pre.reads@[q]);
        } else {
            assert(post.reads@[p] == pre.reads@[p]);
            assert(pre.reads@[p].handle < h);
        }
    }
    assert forall|p: int| 0 <= p < post.reads@.len() implies (#[trigger] post.reads@[p]).handle
        < post.next_handle by {
        if p < n {
            assert(post.reads@[p] == pre.reads@[p]);
        }
    }
    assert forall|p: int, q: int|
        0 <= p < post.reads@.len() && 0 <= q < post.writer@.len() implies (
    #[trigger] post.reads@[p]).handle != (#[trigger] post.writer@[q]).handle by {
        if p < n {
            assert(post.reads@[p] == pre.reads@[p]);
        } else {
            assert(post.reads@[p].handle == h);
            assert(pre.writer@[q].handle < h);
        }
    }
    assert forall|p: int, q: int|
        0 <= p < post.reads@.len() && 0 <= q < post.cursors@.len() implies (
    #[trigger] post.reads@[p]).handle != (#[trigger] post.cursors@[q]).handle by {
        if p < n {
            assert(post.reads@[p] == pre.reads@[p]);
        } else {
            assert(post.reads@[p].handle == h);
            assert(pre.cursors@[q].handle < h);
        }
    }
    assert(post.wf());
    post.lemma_read_index_of(h, n);
    assert forall|g: u64| g != h implies {
        &&& post.is_read_handle(g) == pre.is_read_handle(g)
        &&& post.is_live_read(g) == pre.is_live_read(g)
        &&& (pre.is_live_read(g) ==> post.read_model(g) == pre.read_model(g))
    } by {
        if pre.is_read_handle(g) {
            let i = pre.read_index(g);
            assert(0 <= i < n && pre.reads@[i].handle == g);
            assert(post.reads@[i] == pre.reads@[i]);
            post.lemma_read_index_of(g, i);
            pre.lemma_read_index_of(g, i);
        } else {
            if post.is_read_handle(g) {
                let i = post.read_index(g);
                assert(0 <= i < post.reads@.len() && post.reads@[i].handle == g);
                if i < n {
                    assert(pre.reads@[i].handle == g);
                    assert(pre.is_read_handle(g));
                } else {
                    assert(post.reads@[i].handle == h);
                }
            }
        }
    }
}

proof fn lemma_cursors_push(pre: Store, post: Store)
    requires
        pre.wf(),
        post.cursors@.len() == pre.cursors@.len() + 1,
        forall|k: int| 0 <= k < pre.cursors@.len() ==> post.cursors@[k] == pre.cursors@[k],
        post.cursors@[pre.cursors@.len() as int].handle == pre.next_handle,
        post.cursors@[pre.cursors@.len() as int].iter.wf(),
        post.reads@ == pre.reads@,
        post.writer@ == pre.writer@,
        post.tree == pre.tree,
        post.next_handle == pre.next_handle + 1,
    ensures
        post.wf(),
        cursors_frame_except(pre, post, pre.next_handle),
        post.is_cursor(pre.next_handle),
        post.cursor_index(pre.next_handle) == pre.cursors@.len() as int,
        writer_frame(pre, post),
{
    let n = pre.cursors@.len() as int;
    let h = pre.next_handle;
    assert forall|p: int, q: int| 0 <= p < q < post.cursors@.len() implies (
    #[trigger] post.cursors@[p]).handle != (#[trigger] post.cursors@[q]).handle by {
        if q < n {
            assert(post.cursors@[p] == pre.cursors@[p]);
            assert(post.cursors@[q] == pre.cursors@[q]);
        } else {
            assert(post.cursors@[p] == pre.cursors@[p]);
            assert(pre.cursors@[p].handle < h);
        }
    }
    assert forall|p: int| 0 <= p < post.cursors@.len() implies (#[trigger] post.cursors@[p]).handle
        < post.next_handle by {
        if p < n {
            assert(post.cursors@[p] == pre.cursors@[p]);
        }
    }
    assert forall|p: int| 0 <= p < post.cursors@.len() implies (
    #[trigger] post.cursors@[p]).iter.wf() by {
        if p < n {
            assert(post.cursors@[p] == pre.cursors@[p]);
        }
    }
    assert forall|p: int, q: int|
        0 <= p < post.reads@.len() && 0 <= q < post.cursors@.len() implies (
    #[trigger] post.reads@[p]).handle != (#[trigger] post.cursors@[q]).handle by {
        if q < n {
            assert(post.cursors@[q] == pre.cursors@[q]);
        } else {
            assert(post.cursors@[q].handle == h);
            assert(pre.reads@[p].handle < h);
        }
    }
    assert forall|p: int, q: int|
        0 <= p < post.writer@.len() && 0 <= q < post.cursors@.len() implies (
    #[trigger] post.writer@[p]).handle != (#[trigger] post.cursors@[q]).handle by {
        if q < n {
            assert(post.cursors@[q] == pre.cursors@[q]);
        } else {
            assert(post.cursors@[q].handle == h);
            assert(pre.writer@[p].handle < h);
        }
    }
    assert(post.wf());
    post.lemma_cursor_index_of(h, n);
    assert forall|g: u64| g != h implies {
        &&& post.is_cursor(g) == pre.is_cursor(g)
        &&& (pre.is_cursor(g) ==> post.cursor_parent(g) == pre.cursor_parent(g)
            && post.cursor_rest(g) == pre.cursor_rest(g))
    } by {
        if pre.is_cursor(g) {
            let i = pre.cursor_index(g);
            assert(0 <= i < n && pre.cursors@[i].handle == g);
            assert(post.cursors@[i] == pre.cursors@[i]);
            post.lemma_cursor_index_of(g, i);
            pre.lemma_cursor_index_of(g, i);
        } else {
            if post.is_cursor(g) {
                let i = post.cursor_index(g);
                assert(0 <= i < post.cursors@.len() && post.cursors@[i].handle == g);
                if i < n {
                    assert(pre.cursors@[i].handle == g);
                    assert(pre.is_cursor(g));
                } else {
                    assert(post.cursors@[i].handle == h);
                }
            }
        }
    }
}

proof fn lemma_reads_update(pre: Store, post: Store, i: int)
    requires
        pre.wf(),
        0 <= i < pre.reads@.len(),
        post.reads@.len() == pre.reads@.len(),
        forall|k: int| 0 <= k < pre.reads@.len() && k != i ==> post.reads@[k] == pre.reads@[k],
        post.reads@[i].handle == pre.reads@[i].handle,
        post.writer@ == pre.writer@,
        post.cursors@ == pre.cursors@,
        post.tree == pre.tree,
        post.next_handle == pre.next_handle,
    ensures
        post.wf(),
        reads_frame_except(pre, post, pre.reads@[i].handle),
        post.is_read_handle(pre.reads@[i].handle),
        post.read_index(pre.reads@[i].handle) == i,
        writer_frame(pre, post),
{
    let h = pre.reads@[i].handle;
    assert forall|k: int| 0 <= k < post.reads@.len() implies (#[trigger] post.reads@[k]).handle
        == pre.reads@[k].handle by {
        if k != i {
            assert(post.reads@[k] == pre.reads@[k]);
        }
    }
    assert(post.wf());
    post.lemma_read_index_of(h, i);
    assert forall|g: u64| g != h implies {
        &&& post.is_read_handle(g) == pre.is_read_handle(g)
        &&& post.is_live_read(g) == pre.is_live_read(g)
        &&& (pre.is_live_read(g) ==> post.read_model(g) == pre.read_model(g))
    } by {
        if pre.is_read_handle(g) {
            let k = pre.read_index(g);
            assert(0 <= k < pre.reads@.len() && pre.reads@[k].handle == g);
            assert(k != i);
            assert(post.reads@[k] == pre.reads@[k]);
            post.lemma_read_index_of(g, k);
            pre.lemma_read_index_of(g, k);
        } else {
            if post.is_read_handle(g) {
                let k = post.read_index(g);
                assert(0 <= k < post.reads@.len() && post.reads@[k].handle == g);
                assert(k != i);
                assert(pre.reads@[k].handle == g);
                assert(pre.is_read_handle(g));
            }
        }
    }
}

proof fn lemma_cursors_update(pre: Store, post: Store, i: int)
    requires
        pre.wf(),
        0 <= i < pre.cursors@.len(),
        post.cursors@.len() == pre.cursors@.len(),
        forall|k: int| 0 <= k < pre.cursors@.len() && k != i ==> post.cursors@[k] == pre.cursors@[k],
        post.cursors@[i].handle == pre.cursors@[i].handle,
        post.cursors@[i].parent == pre.cursors@[i].parent,
        post.cursors@[i].iter.wf(),
        post.reads@ == pre.reads@,
        post.writer@ == pre.writer@,
        post.tree == pre.tree,
        post.next_handle == pre.next_handle,
    ensures
        post.wf(),
        cursors_frame_except(pre, post, pre.cursors@[i].handle),
        post.is_cursor(pre.cursors@[i].handle),
        post.cursor_index(pre.cursors@[i].handle) == i,
        writer_frame(pre, post),
{
    let h = pre.cursors@[i].handle;
    assert forall|k: int| 0 <= k < post.cursors@.len() implies (#[trigger] post.cursors@[k]).handle
        == pre.cursors@[k].handle by {
        if k != i {
            assert(post.cursors@[k] == pre.cursors@[k]);
        }
    }
    assert forall|k: int| 0 <= k < post.cursors@.len() implies (
    #[trigger] post.cursors@[k]).iter.wf() by {
        if k != i {
            assert(post.cursors@[k] == pre.cursors@[k]);
        }
    }
    assert(post.wf());
    post.lemma_cursor_index_of(h, i);
    assert forall|g: u64| g != h implies {
        &&& post.is_cursor(g) == pre.is_cursor(g)
        &&& (pre.is_cursor(g) ==> post.cursor_parent(g) == pre.cursor_parent(g)
            && post.cursor_rest(g) == pre.cursor_rest(g))
    } by {
        if pre.is_cursor(g) {
            let k = pre.cursor_index(g);
            assert(0 <= k < pre.cursors@.len() && pre.cursors@[k].handle == g);
            assert(k != i);
            assert(post.cursors@[k] == pre.cursors@[k]);
            post.lemma_cursor_index_of(g, k);
            pre.lemma_cursor_index_of(g, k);
        } else {
            if post.is_cursor(g) {
                let k = post.cursor_index(g);
                assert(0 <= k < post.cursors@.len() && post.cursors@[k].handle == g);
                assert(k != i);
                assert(pre.cursors@[k].handle == g);
                assert(pre.is_cursor(g));
            }
        }
    }
}

proof fn lemma_writer_push(pre: Store, post: Store)
    requires
        pre.wf(),
        pre.writer@.len() == 0,
        post.writer@.len() == 1,
        post.writer@[0].handle == pre.next_handle,
        post.writer@[0].txn.source() == tree_id(post.tree),
        post.reads@ == pre.reads@,
        post.cursors@ == pre.cursors@,
        post.next_handle == pre.next_handle + 1,
    ensures
        post.wf(),
        post.is_live_writer(pre.next_handle),
{
    let h = pre.next_handle;
    assert forall|p: int| 0 <= p < post.reads@.len() implies (#[trigger] post.reads@[p]).handle
        < post.next_handle by {}
    assert forall|p: int, q: int|
        0 <= p < post.reads@.len() && 0 <= q < post.writer@.len() implies (
    #[trigger] post.reads@[p]).handle != (#[trigger] post.writer@[q]).handle by {
        assert(post.reads@[p].handle < h);
        assert(post.writer@[q].handle == h);
    }
    assert forall|p: int, q: int|
        0 <= p < post.writer@.len() && 0 <= q < post.cursors@.len() implies (
    #[trigger] post.writer@[p]).handle != (#[trigger] post.cursors@[q]).handle by {
        assert(post.cursors@[q].handle < h);
        assert(post.writer@[p].handle == h);
    }
    assert(post.wf());
}

proof fn lemma_writer_update(pre: Store, post: Store)
    requires
        pre.wf(),
        pre.writer@.len() == 1,
        post.writer@.len() == 1,
        post.writer@[0].handle == pre.writer@[0].handle,
        post.writer@[0].txn.source() == pre.writer@[0].txn.source(),
        post.reads@ == pre.reads@,
        post.cursors@ == pre.cursors@,
        post.tree == pre.tree,
        post.next_handle == pre.next_handle,
    ensures
        post.wf(),
{
    assert forall|p: int, q: int|
        0 <= p < post.reads@.len() && 0 <= q < post.writer@.len() implies (
    #[trigger] post.reads@[p]).handle != (#[trigger] post.writer@[q]).handle by {
        assert(pre.reads@[p].handle != pre.writer@[0].handle);
    }
    assert forall|p: int, q: int|
        0 <= p < post.writer@.len() && 0 <= q < post.cursors@.len() implies (
    #[trigger] post.writer@[p]).handle != (#[trigger] post.cursors@[q]).handle by {
        assert(pre.writer@[0].handle != pre.cursors@[q].handle);
    }
    assert(post.wf());
}

proof fn lemma_writer_pop(pre: Store, post: Store)
    requires
        pre.wf(),
        post.writer@.len() == 0,
        !tree_locked(post.tree),
        post.reads@ == pre.reads@,
        post.cursors@ == pre.cursors@,
        post.next_handle == pre.next_handle,
    ensures
        post.wf(),
        !post.writer_live(),
{
    assert(post.wf());
}

} // verus!
