//! The key iterator: a lazy, forward-only walk over the namespace's keys,
//! or over one key's subkey names.
//!
//! The iterator snapshots its key sequence when it is constructed and then
//! only advances: each call of [`K2hashKey::next`] yields the key at the
//! cursor and moves the cursor forward. Once exhausted it stays exhausted;
//! a new iterator must be constructed to start over. The order across
//! top-level keys is the store's own storage order; callers must not
//! depend on any particular ordering.

use vstd::prelude::*;

use crate::errors::K2hError;
use crate::store::K2hash;
use crate::model::store_keys;
use crate::model::subkeys_of;

verus! {

/// The model of a key iterator: the snapshot and the cursor into it.
#[verifier::ext_equal]
pub ghost struct IterModel {
    /// The keys the iterator walks, in order.
    pub keys: Seq<Seq<char>>,
    /// How many keys have been yielded.
    pub cursor: int,
}

/// A forward-only iterator over the namespace's keys or over one key's
/// subkey names.
pub struct K2hashKey {
    keys: Vec<String>,
    cursor: usize,
}

impl View for K2hashKey {
    type V = IterModel;

    closed spec fn view(&self) -> IterModel {
        IterModel { keys: self.keys.deep_view(), cursor: self.cursor as int }
    }
}

impl K2hashKey {
    /// The cursor never passes the end of the snapshot.
    pub open spec fn wf(&self) -> bool {
        0 <= self@.cursor <= self@.keys.len()
    }

    /// Construct an iterator over the namespace's keys (no filter key), or
    /// over the subkey names of the filter key.
    ///
    /// Construction fails with `NoMatch` where no initial position exists:
    /// an empty namespace, a filter key with no subkeys, or a missing
    /// filter key.
    pub fn new(db: &K2hash, key: Option<String>) -> (r: Result<K2hashKey, K2hError>)
        requires
            db.wf(),
        ensures
            key is None ==> ((r is Ok <==> store_keys(db@).len() > 0) && (r is Ok
                ==> r->Ok_0@ == (IterModel { keys: store_keys(db@), cursor: 0 }))),
            key matches Some(k) ==> ((r is Ok <==> subkeys_of(db@, k@).len() > 0) && (r is Ok
                ==> r->Ok_0@ == (IterModel { keys: subkeys_of(db@, k@), cursor: 0 }))),
            r is Err ==> r == Err::<K2hashKey, K2hError>(K2hError::NoMatch),
            r is Ok ==> r->Ok_0.wf(),
    {
        let keys = match &key {
            None => db.snapshot_keys(),
            Some(k) => db.snapshot_subkeys(k),
        };
        if keys.len() == 0 {
            return Err(K2hError::NoMatch);
        }
        Ok(K2hashKey { keys, cursor: 0 })
    }

    /// Yield the key at the cursor and advance, or nothing once the
    /// snapshot is exhausted. An exhausted iterator stays exhausted.
    pub fn next(&mut self) -> (r: Option<String>)
        requires
            old(self).wf(),
        ensures
            final(self).wf(),
            final(self)@.keys == old(self)@.keys,
            old(self)@.cursor < old(self)@.keys.len() ==> (r matches Some(s) && s@ == old(
                self,
            )@.keys[old(self)@.cursor] && final(self)@.cursor == old(self)@.cursor + 1),
            old(self)@.cursor >= old(self)@.keys.len() ==> r is None && final(self)@ == old(
                self,
            )@,
    {
        if self.cursor < self.keys.len() {
            let s = self.keys[self.cursor].clone();
            self.cursor = self.cursor + 1;
            Some(s)
        } else {
            None
        }
    }
}

} // verus!
