//! Range cursors and the entry types they yield.

use vstd::prelude::*;

use crate::keys::entries_view;

verus! {

/// One key-value entry yielded by a cursor.
#[derive(Clone, Debug, PartialEq, Eq)]
pub struct KeyValue {
    pub key: Vec<u8>,
    pub value: Vec<u8>,
}

/// What one step of a cursor produced: `done` once the upper bound has been
/// passed, otherwise the next entry in ascending key order.
#[derive(Clone, Debug, PartialEq, Eq)]
pub struct IteratorResult {
    pub done: bool,
    pub value: Option<KeyValue>,
}

/// A forward-only cursor over the result of one range query.
///
/// The entries are captured when the cursor is created, so its contents stay
/// fixed even while its parent write session keeps mutating. Once exhausted,
/// a cursor stays exhausted; it cannot be restarted.
pub struct ExternalRangeIterator {
    entries: Vec<(Vec<u8>, Vec<u8>)>,
    pos: usize,
}

impl ExternalRangeIterator {
    /// The cursor's position has not run past its entries.
    pub closed spec fn wf(self) -> bool {
        self.pos <= self.entries@.len()
    }

    /// The entries the cursor has not yet yielded, in order.
    pub closed spec fn remaining(self) -> Seq<(Seq<u8>, Seq<u8>)> {
        entries_view(self.entries@).skip(self.pos as int)
    }

    /// Wraps the entries of one range query into a fresh cursor.
    pub(crate) fn from_entries(entries: Vec<(Vec<u8>, Vec<u8>)>) -> (r: ExternalRangeIterator)
        ensures
            r.wf(),
            r.remaining() == entries_view(entries@),
    {
        let r = ExternalRangeIterator { entries, pos: 0 };
        proof {
            assert(r.remaining() =~= entries_view(r.entries@));
        }
        r
    }

    /// An immediately exhausted cursor; an inverted range yields one.
    pub(crate) fn exhausted() -> (r: ExternalRangeIterator)
        ensures
            r.wf(),
            r.remaining().len() == 0,
    {
        ExternalRangeIterator { entries: Vec::new(), pos: 0 }
    }

    /// Yields the next entry in ascending key order, or reports `done` once
    /// the cursor is exhausted. An exhausted cursor keeps reporting `done`.
    pub fn next(&mut self) -> (r: IteratorResult)
        requires
            old(self).wf(),
        ensures
            final(self).wf(),
            old(self).remaining().len() == 0 ==> {
                &&& r.done
                &&& r.value is None
                &&& final(self).remaining() == old(self).remaining()
            },
            old(self).remaining().len() > 0 ==> {
                &&& !r.done
                &&& r.value matches Some(kv) && kv.key@ == old(self).remaining()[0].0
                    && kv.value@ == old(self).remaining()[0].1
                &&& final(self).remaining() == old(self).remaining().drop_first()
            },
    {
        if self.pos < self.entries.len() {
            let key = self.entries[self.pos].0.clone();
            let value = self.entries[self.pos].1.clone();
            self.pos = self.pos + 1;
            proof {
                assert(self.remaining() =~= old(self).remaining().drop_first());
            }
            IteratorResult { done: false, value: Some(KeyValue { key, value }) }
        } else {
            IteratorResult { done: true, value: None }
        }
    }
}

} // verus!
