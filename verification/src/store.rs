//! The key-value store: a single mutable namespace of entries with per-key
//! attributes and subkey relations, plus store-wide encryption and
//! transaction state.
//!
//! The store is the in-memory realization of [`crate::model::StoreModel`]:
//! every operation's contract states its result and its effect as a function
//! on that model. File-backed persistence, archives and the transaction
//! journal's contents belong to the storage engine below this model; the
//! operations that name a file validate the request and record what the
//! model keeps of it.

use vstd::prelude::*;

use crate::errors::K2hError;
use crate::model::AttrModel;
use crate::model::EntryModel;
use crate::model::KQueueModel;
use crate::model::StoreModel;
use crate::model::VQueueModel;
use crate::model::kq_items;
use crate::model::lemma_kq_index_of;
use crate::model::lemma_kq_set;
use crate::model::lemma_vq_index_of;
use crate::model::lemma_vq_set;
use crate::model::store_kq_clear;
use crate::model::store_kq_set;
use crate::model::store_vq_clear;
use crate::model::store_vq_set;
use crate::model::vq_has;
use crate::model::kq_has;
use crate::model::vq_items;
use crate::model::attr_index;
use crate::model::attr_pairs;
use crate::model::attrs_of;
use crate::model::effective_password;
use crate::model::entry_wf;
use crate::model::has_attr;
use crate::model::has_key;
use crate::model::entry_at;
use crate::model::lemma_add_subkey;
use crate::model::lemma_attr_index_of;
use crate::model::lemma_key_index_of;
use crate::model::lemma_name_index_of;
use crate::model::lemma_set_attribute_preserves_inv;
use crate::model::lemma_set_has_key;
use crate::model::lemma_set_preserves_inv;
use crate::model::lemma_unlink_subkey_preserves_inv;
use crate::model::name_index;
use crate::model::store_add_subkey;
use crate::model::store_remove_subkey;
use crate::model::store_remove_subkeys;
use crate::model::store_set_attribute;
use crate::model::store_set_subkeys;
use crate::model::store_unlink_subkey;
use crate::model::lemma_remove_entry_effect;
use crate::model::lemma_remove_entry_preserves_inv;
use crate::model::lemma_rename_preserves_inv;
use crate::model::remove_keys;
use crate::model::store_fresh;
use crate::model::store_inv;
use crate::model::store_keys;
use crate::model::store_read;
use crate::model::store_remove_all;
use crate::model::store_remove_entry;
use crate::model::store_rename;
use crate::model::store_set;
use crate::model::subkeys_of;

verus! {

/// One attribute as stored: a name and a value.
struct Attr {
    name: String,
    value: String,
}

impl View for Attr {
    type V = AttrModel;

    closed spec fn view(&self) -> AttrModel {
        AttrModel { name: self.name@, value: self.value@ }
    }
}

/// One stored entry: the key, its value, the password and expiration it was
/// written with, its attributes and its ordered subkey names.
struct Entry {
    key: String,
    value: String,
    password: Option<String>,
    expire: Option<u64>,
    attrs: Vec<Attr>,
    subkeys: Vec<String>,
}

impl View for Entry {
    type V = EntryModel;

    closed spec fn view(&self) -> EntryModel {
        EntryModel {
            key: self.key@,
            value: self.value@,
            password: opt_string_view(self.password),
            expire: self.expire,
            attrs: self.attrs@.map_values(|a: Attr| a@),
            subkeys: self.subkeys.deep_view(),
        }
    }
}

/// The view of an optional borrowed password or key.
pub open spec fn opt_str_view(p: Option<&str>) -> Option<Seq<char>> {
    match p {
        Some(s) => Some(s@),
        None => None,
    }
}

/// The view of an optional owned string.
pub open spec fn opt_string_view(p: Option<String>) -> Option<Seq<char>> {
    match p {
        Some(s) => Some(s@),
        None => None,
    }
}

/// The views of a sequence of entries.
spec fn entries_view(es: Seq<Entry>) -> Seq<EntryModel> {
    es.map_values(|e: Entry| e@)
}

/// The views of a sequence of attributes.
spec fn attrs_view(s: Seq<Attr>) -> Seq<AttrModel> {
    s.map_values(|a: Attr| a@)
}

/// The views of a list of borrowed names.
pub open spec fn strs_view(s: Seq<&str>) -> Seq<Seq<char>> {
    s.map_values(|x: &str| x@)
}

/// The views of a list of borrowed name/value pairs.
pub open spec fn pairs_view(s: Seq<(&str, &str)>) -> Seq<(Seq<char>, Seq<char>)> {
    s.map_values(|p: (&str, &str)| (p.0@, p.1@))
}

/// One value-queue partition as stored: its prefix and pending elements.
struct VQueueSlot {
    prefix: Option<String>,
    items: Vec<String>,
}

impl View for VQueueSlot {
    type V = VQueueModel;

    closed spec fn view(&self) -> VQueueModel {
        VQueueModel { prefix: opt_string_view(self.prefix), items: self.items.deep_view() }
    }
}

/// One key-value-queue partition as stored: its prefix and pending pairs.
struct KQueueSlot {
    prefix: Option<String>,
    items: Vec<(String, String)>,
}

impl View for KQueueSlot {
    type V = KQueueModel;

    closed spec fn view(&self) -> KQueueModel {
        KQueueModel {
            prefix: opt_string_view(self.prefix),
            items: self.items.deep_view(),
        }
    }
}

/// The views of the value-queue partitions.
spec fn vqueues_view(s: Seq<VQueueSlot>) -> Seq<VQueueModel> {
    s.map_values(|q: VQueueSlot| q@)
}

/// The views of the key-value-queue partitions.
spec fn kqueues_view(s: Seq<KQueueSlot>) -> Seq<KQueueModel> {
    s.map_values(|q: KQueueSlot| q@)
}

/// An open namespace of the key-value store.
///
/// A value of this type is always an open namespace: the handle is non-zero
/// from construction on, and the namespace closes when the value is dropped.
/// Besides the entries it holds the queue partitions: every queue value
/// bound to the namespace under one prefix reads and writes the one
/// partition of that prefix, so queues share their stored sequence and the
/// sequence outlives any single queue value.
pub struct K2hash {
    handle: u64,
    entries: Vec<Entry>,
    enc_enabled: bool,
    default_password: Option<String>,
    dec_passwords: Vec<String>,
    history_enabled: bool,
    mtime_enabled: bool,
    tx_file: Option<String>,
    vqueues: Vec<VQueueSlot>,
    kqueues: Vec<KQueueSlot>,
}

impl View for K2hash {
    type V = StoreModel;

    closed spec fn view(&self) -> StoreModel {
        StoreModel {
            entries: entries_view(self.entries@),
            enc_enabled: self.enc_enabled,
            default_password: opt_string_view(self.default_password),
            dec_passwords: self.dec_passwords.deep_view(),
            history_enabled: self.history_enabled,
            mtime_enabled: self.mtime_enabled,
            tx_file: opt_string_view(self.tx_file),
            vqueues: vqueues_view(self.vqueues@),
            kqueues: kqueues_view(self.kqueues@),
        }
    }
}

impl K2hash {
    /// The namespace handle as the store reports it.
    pub closed spec fn spec_handle(&self) -> u64 {
        self.handle
    }

    /// A well-formed store: open (non-zero handle) and a well-formed model.
    pub open spec fn wf(&self) -> bool {
        self.spec_handle() != 0 && store_inv(self@)
    }

    /// Get the handle of the namespace; non-zero while the namespace lives.
    pub fn handle(&self) -> (r: u64)
        requires
            self.wf(),
        ensures
            r == self.spec_handle(),
            r != 0,
    {
        self.handle
    }

    /// Open a memory-backed namespace. The fresh namespace is empty.
    pub fn open_mem() -> (r: Result<K2hash, K2hError>)
        ensures
            r is Ok,
            r->Ok_0.wf(),
            r->Ok_0@ == store_fresh(),
    {
        let db = K2hash {
            handle: 1,
            entries: Vec::new(),
            enc_enabled: false,
            default_password: None,
            dec_passwords: Vec::new(),
            history_enabled: false,
            mtime_enabled: false,
            tx_file: None,
            vqueues: Vec::new(),
            kqueues: Vec::new(),
        };
        proof {
            assert(db@ =~~= store_fresh());
        }
        Ok(db)
    }

    /// Open a file-backed namespace.
    ///
    /// The model starts every namespace empty: what an earlier process left
    /// in the backing file belongs to the storage engine below the model.
    /// An empty path is rejected.
    pub fn open(file: &str) -> (r: Result<K2hash, K2hError>)
        ensures
            r is Ok <==> file@.len() > 0,
            r is Err ==> r == Err::<K2hash, K2hError>(K2hError::OpenFailed),
            r is Ok ==> r->Ok_0.wf() && r->Ok_0@ == store_fresh(),
    {
        if file.is_empty() {
            return Err(K2hError::OpenFailed);
        }
        K2hash::open_mem()
    }

    /// Find the index of the entry holding `key`, if any.
    fn find_key(entries: &Vec<Entry>, key: &String) -> (r: Option<usize>)
        ensures
            match r {
                Some(i) => i < entries@.len() && entries_view(entries@)[i as int].key == key@,
                None => !has_key(entries_view(entries@), key@),
            },
    {
        let n = entries.len();
        let mut i: usize = 0;
        while i < n
            invariant
                n == entries@.len(),
                forall|j: int| 0 <= j < i ==> entries_view(entries@)[j].key != key@,
            decreases n - i,
        {
            if entries[i].key == *key {
                return Some(i);
            }
            i += 1;
        }
        proof {
            if has_key(entries_view(entries@), key@) {
                let j = choose|j: int|
                    0 <= j < entries_view(entries@).len() && entries_view(entries@)[j].key
                        == key@;
                assert(entries_view(entries@)[j].key != key@);
            }
        }
        None
    }

    /// Set a value with a key.
    pub fn set(&mut self, key: &str, value: &str) -> (r: Result<(), K2hError>)
        requires
            old(self).wf(),
        ensures
            final(self).wf(),
            final(self).spec_handle() == old(self).spec_handle(),
            key@.len() == 0 ==> r == Err::<(), K2hError>(K2hError::EmptyKey) && final(self)@
                == old(self)@,
            key@.len() > 0 && value@.len() == 0 ==> r == Err::<(), K2hError>(
                K2hError::EmptyValue,
            ) && final(self)@ == old(self)@,
            key@.len() > 0 && value@.len() > 0 ==> r is Ok && final(self)@ == store_set(
                old(self)@,
                key@,
                value@,
                None,
                None,
            ),
    {
        self.set_with_options(key, value, None, None)
    }

    /// Set a value with a key, a password and an expiration.
    ///
    /// An existing entry keeps its attributes and subkeys and takes the new
    /// value, password and expiration. Without an explicit password, the
    /// default encryption password is used where encrypt-by-default is on.
    pub fn set_with_options(
        &mut self,
        key: &str,
        value: &str,
        password: Option<&str>,
        expire_duration: Option<u64>,
    ) -> (r: Result<(), K2hError>)
        requires
            old(self).wf(),
        ensures
            final(self).wf(),
            final(self).spec_handle() == old(self).spec_handle(),
            key@.len() == 0 ==> r == Err::<(), K2hError>(K2hError::EmptyKey) && final(self)@
                == old(self)@,
            key@.len() > 0 && value@.len() == 0 ==> r == Err::<(), K2hError>(
                K2hError::EmptyValue,
            ) && final(self)@ == old(self)@,
            key@.len() > 0 && value@.len() > 0 ==> r is Ok && final(self)@ == store_set(
                old(self)@,
                key@,
                value@,
                opt_str_view(password),
                expire_duration,
            ),
    {
        if key.is_empty() {
            return Err(K2hError::EmptyKey);
        }
        if value.is_empty() {
            return Err(K2hError::EmptyValue);
        }
        let pass: Option<String> = match password {
            Some(p) => Some(p.to_owned()),
            None => {
                if self.enc_enabled {
                    match &self.default_password {
                        Some(d) => Some(d.clone()),
                        None => None,
                    }
                } else {
                    None
                }
            },
        };
        proof {
            assert(opt_string_view(pass) == effective_password(
                self@,
                opt_str_view(password),
            ));
            lemma_set_preserves_inv(
                self@,
                key@,
                value@,
                opt_str_view(password),
                expire_duration,
            );
        }
        let ghost m0 = self@;
        let k = key.to_owned();
        match Self::find_key(&self.entries, &k) {
            Some(i) => {
                proof {
                    lemma_key_index_of(m0.entries, key@, i as int);
                }
                let e = self.entries.remove(i);
                let e2 = Entry {
                    value: value.to_owned(),
                    password: pass,
                    expire: expire_duration,
                    ..e
                };
                let ghost e2v = e2@;
                self.entries.insert(i, e2);
                proof {
                    assert(entries_view(self.entries@) =~= m0.entries.update(i as int, e2v));
                    assert(self@ =~~= store_set(
                        m0,
                        key@,
                        value@,
                        opt_str_view(password),
                        expire_duration,
                    ));
                }
                Ok(())
            },
            None => {
                let e2 = Entry {
                    key: k,
                    value: value.to_owned(),
                    password: pass,
                    expire: expire_duration,
                    attrs: Vec::new(),
                    subkeys: Vec::new(),
                };
                let ghost e2v = e2@;
                self.entries.push(e2);
                proof {
                    assert(e2v =~~= EntryModel {
                        key: key@,
                        value: value@,
                        password: effective_password(m0, opt_str_view(password)),
                        expire: expire_duration,
                        attrs: Seq::empty(),
                        subkeys: Seq::empty(),
                    });
                    assert(entries_view(self.entries@) =~= m0.entries.push(e2v));
                    assert(self@ =~~= store_set(
                        m0,
                        key@,
                        value@,
                        opt_str_view(password),
                        expire_duration,
                    ));
                }
                Ok(())
            },
        }
    }

    /// Get the value stored under a key.
    pub fn get(&self, key: &str) -> (r: Result<Option<String>, K2hError>)
        requires
            self.wf(),
        ensures
            key@.len() == 0 ==> r == Err::<Option<String>, K2hError>(K2hError::EmptyKey),
            key@.len() > 0 ==> r is Ok && opt_string_view(r->Ok_0) == store_read(
                self@,
                key@,
                None,
            ),
    {
        self.get_with_options(key, None)
    }

    /// Get the value stored under a key, decrypting with the given password.
    ///
    /// A missing key, an expired entry and an encrypted entry that no given
    /// or registered password opens are observably the same: no value.
    pub fn get_with_options(&self, key: &str, password: Option<&str>) -> (r: Result<
        Option<String>,
        K2hError,
    >)
        requires
            self.wf(),
        ensures
            key@.len() == 0 ==> r == Err::<Option<String>, K2hError>(K2hError::EmptyKey),
            key@.len() > 0 ==> r is Ok && opt_string_view(r->Ok_0) == store_read(
                self@,
                key@,
                opt_str_view(password),
            ),
    {
        if key.is_empty() {
            return Err(K2hError::EmptyKey);
        }
        let k = key.to_owned();
        match Self::find_key(&self.entries, &k) {
            Some(i) => {
                proof {
                    lemma_key_index_of(entries_view(self.entries@), key@, i as int);
                }
                let e = &self.entries[i];
                let ok = match &e.password {
                    None => true,
                    Some(p) => {
                        let given_match = match password {
                            Some(g) => *p == g.to_owned(),
                            None => false,
                        };
                        if given_match {
                            true
                        } else {
                            Self::contains_password(&self.dec_passwords, p)
                        }
                    },
                };
                if ok {
                    Ok(Some(e.value.clone()))
                } else {
                    Ok(None)
                }
            },
            None => Ok(None),
        }
    }

    /// A copy of a list of names.
    fn clone_names(v: &Vec<String>) -> (r: Vec<String>)
        ensures
            r.deep_view() == v.deep_view(),
    {
        let n = v.len();
        let mut r: Vec<String> = Vec::new();
        let mut i: usize = 0;
        while i < n
            invariant
                n == v@.len(),
                i <= n,
                r@.len() == i,
                forall|j: int| 0 <= j < i ==> r.deep_view()[j] == v.deep_view()[j],
            decreases n - i,
        {
            r.push(v[i].clone());
            i += 1;
        }
        proof {
            assert(r.deep_view() =~~= v.deep_view());
        }
        r
    }

    /// Remove a key from the namespace, leaving its subkeys' own entries.
    ///
    /// Only this key's entry goes: the removal does not unlink the key
    /// from any parent whose subkey list carries it, so such a parent
    /// keeps listing the name with no stored entry behind it. The subkey
    /// operations (`remove_subkeys`) remove name and entry together.
    pub fn remove(&mut self, key: &str) -> (r: Result<(), K2hError>)
        requires
            old(self).wf(),
        ensures
            final(self).wf(),
            final(self).spec_handle() == old(self).spec_handle(),
            key@.len() == 0 ==> r == Err::<(), K2hError>(K2hError::EmptyKey) && final(self)@
                == old(self)@,
            key@.len() > 0 && !has_key(old(self)@.entries, key@) ==> r == Err::<(), K2hError>(
                K2hError::RemoveFailed,
            ) && final(self)@ == old(self)@,
            key@.len() > 0 && has_key(old(self)@.entries, key@) ==> r is Ok && final(self)@
                == store_remove_entry(old(self)@, key@),
    {
        self.remove_with_options(key, false)
    }

    /// Remove a key from the namespace; with `remove_all_subkeys`, the
    /// entries of all its subkeys go with it.
    ///
    /// In neither form is the key unlinked from a parent whose subkey
    /// list carries it: such a parent keeps listing the name with no
    /// stored entry behind it.
    pub fn remove_with_options(&mut self, key: &str, remove_all_subkeys: bool) -> (r: Result<
        (),
        K2hError,
    >)
        requires
            old(self).wf(),
        ensures
            final(self).wf(),
            final(self).spec_handle() == old(self).spec_handle(),
            key@.len() == 0 ==> r == Err::<(), K2hError>(K2hError::EmptyKey) && final(self)@
                == old(self)@,
            key@.len() > 0 && !has_key(old(self)@.entries, key@) ==> r == Err::<(), K2hError>(
                K2hError::RemoveFailed,
            ) && final(self)@ == old(self)@,
            key@.len() > 0 && has_key(old(self)@.entries, key@) && !remove_all_subkeys ==> r
                is Ok && final(self)@ == store_remove_entry(old(self)@, key@),
            key@.len() > 0 && has_key(old(self)@.entries, key@) && remove_all_subkeys ==> r
                is Ok && final(self)@ == store_remove_all(old(self)@, key@),
    {
        if key.is_empty() {
            return Err(K2hError::EmptyKey);
        }
        let ghost m0 = self@;
        let k = key.to_owned();
        let i = match Self::find_key(&self.entries, &k) {
            Some(i) => i,
            None => {
                return Err(K2hError::RemoveFailed);
            },
        };
        proof {
            lemma_key_index_of(m0.entries, key@, i as int);
            lemma_remove_entry_preserves_inv(m0, key@);
        }
        if !remove_all_subkeys {
            self.entries.remove(i);
            proof {
                assert(entries_view(self.entries@) =~= m0.entries.remove(i as int));
                assert(self@ =~~= store_remove_entry(m0, key@));
            }
            return Ok(());
        }
        let sks = Self::clone_names(&self.entries[i].subkeys);
        let ghost names = subkeys_of(m0, key@);
        self.entries.remove(i);
        proof {
            assert(entries_view(self.entries@) =~= m0.entries.remove(i as int));
            assert(self@ =~~= store_remove_entry(m0, key@));
        }
        let ghost m1 = self@;
        proof {
            assert(names.skip(0) =~~= names);
        }
        let n = sks.len();
        let mut t: usize = 0;
        while t < n
            invariant
                n == sks@.len(),
                t <= n,
                sks.deep_view() == names,
                store_inv(self@),
                self.spec_handle() == old(self).spec_handle(),
                remove_keys(m1, names) == remove_keys(self@, names.skip(t as int)),
            decreases n - t,
        {
            let ghost pre = self@;
            match Self::find_key(&self.entries, &sks[t]) {
                Some(j) => {
                    proof {
                        lemma_key_index_of(pre.entries, names[t as int], j as int);
                    }
                    self.entries.remove(j);
                    proof {
                        assert(entries_view(self.entries@) =~= pre.entries.remove(j as int));
                        assert(self@ =~~= store_remove_entry(pre, names[t as int]));
                    }
                },
                None => {
                    proof {
                        assert(store_remove_entry(pre, names[t as int]) == pre);
                    }
                },
            }
            proof {
                lemma_remove_entry_preserves_inv(pre, names[t as int]);
                assert(names.skip(t as int)[0] == names[t as int]);
                assert(names.skip(t as int).skip(1) =~= names.skip(t as int + 1));
                assert(remove_keys(pre, names.skip(t as int)) == remove_keys(
                    self@,
                    names.skip(t as int + 1),
                ));
            }
            t += 1;
        }
        proof {
            assert(names.skip(n as int) =~= Seq::<Seq<char>>::empty());
            assert(remove_keys(self@, names.skip(n as int)) == self@);
            assert(self@ == store_remove_all(m0, key@));
        }
        Ok(())
    }

    /// Rename an old key to a new key, keeping the entry's value, password,
    /// expiration, attributes and subkeys. An entry already holding the new
    /// key is overwritten.
    pub fn rename(&mut self, oldkey: &str, newkey: &str) -> (r: Result<(), K2hError>)
        requires
            old(self).wf(),
        ensures
            final(self).wf(),
            final(self).spec_handle() == old(self).spec_handle(),
            oldkey@.len() == 0 || newkey@.len() == 0 ==> r == Err::<(), K2hError>(
                K2hError::EmptyKey,
            ) && final(self)@ == old(self)@,
            oldkey@.len() > 0 && newkey@.len() > 0 && !has_key(old(self)@.entries, oldkey@)
                ==> r == Err::<(), K2hError>(K2hError::RenameFailed) && final(self)@ == old(
                self,
            )@,
            oldkey@.len() > 0 && newkey@.len() > 0 && has_key(old(self)@.entries, oldkey@)
                ==> r is Ok && final(self)@ == store_rename(old(self)@, oldkey@, newkey@),
    {
        if oldkey.is_empty() {
            return Err(K2hError::EmptyKey);
        }
        if newkey.is_empty() {
            return Err(K2hError::EmptyKey);
        }
        let ghost m0 = self@;
        let ok_owned = oldkey.to_owned();
        let nk_owned = newkey.to_owned();
        let i = match Self::find_key(&self.entries, &ok_owned) {
            Some(i) => i,
            None => {
                return Err(K2hError::RenameFailed);
            },
        };
        proof {
            lemma_key_index_of(m0.entries, oldkey@, i as int);
        }
        if ok_owned == nk_owned {
            return Ok(());
        }
        proof {
            lemma_remove_entry_preserves_inv(m0, newkey@);
            lemma_remove_entry_effect(m0, newkey@, oldkey@);
            lemma_rename_preserves_inv(m0, oldkey@, newkey@);
        }
        match Self::find_key(&self.entries, &nk_owned) {
            Some(j) => {
                proof {
                    lemma_key_index_of(m0.entries, newkey@, j as int);
                }
                self.entries.remove(j);
                proof {
                    assert(entries_view(self.entries@) =~= m0.entries.remove(j as int));
                    assert(self@ =~~= store_remove_entry(m0, newkey@));
                }
            },
            None => {
                proof {
                    assert(store_remove_entry(m0, newkey@) == m0);
                }
            },
        }
        let ghost m1 = store_remove_entry(m0, newkey@);
        let i2 = match Self::find_key(&self.entries, &ok_owned) {
            Some(i2) => i2,
            None => {
                proof {
                    assert(has_key(m1.entries, oldkey@));
                }
                vstd::pervasive::unreached()
            },
        };
        proof {
            lemma_key_index_of(m1.entries, oldkey@, i2 as int);
        }
        let e = self.entries.remove(i2);
        let e2 = Entry { key: nk_owned, ..e };
        let ghost e2v = e2@;
        self.entries.insert(i2, e2);
        proof {
            assert(entries_view(self.entries@) =~= m1.entries.update(i2 as int, e2v));
            assert(self@ =~~= store_rename(m0, oldkey@, newkey@));
        }
        Ok(())
    }

    /// Find the position of `name` in a list of names, if any.
    fn find_name(v: &Vec<String>, name: &String) -> (r: Option<usize>)
        ensures
            match r {
                Some(j) => j < v@.len() && v.deep_view()[j as int] == name@,
                None => !v.deep_view().contains(name@),
            },
    {
        let n = v.len();
        let mut i: usize = 0;
        while i < n
            invariant
                n == v@.len(),
                forall|j: int| 0 <= j < i ==> v.deep_view()[j] != name@,
            decreases n - i,
        {
            if v[i] == *name {
                return Some(i);
            }
            i += 1;
        }
        proof {
            if v.deep_view().contains(name@) {
                let j = choose|j: int|
                    0 <= j < v.deep_view().len() && v.deep_view()[j] == name@;
                assert(v.deep_view()[j] != name@);
            }
        }
        None
    }

    /// Add a subkey to a key.
    pub fn add_subkey(&mut self, key: &str, subkey: &str, subval: &str) -> (r: Result<
        (),
        K2hError,
    >)
        requires
            old(self).wf(),
        ensures
            final(self).wf(),
            final(self).spec_handle() == old(self).spec_handle(),
            key@.len() == 0 || subkey@.len() == 0 || subval@.len() == 0 ==> r == Err::<
                (),
                K2hError,
            >(K2hError::EmptyField) && final(self)@ == old(self)@,
            key@.len() > 0 && subkey@.len() > 0 && subval@.len() > 0 && !has_key(
                old(self)@.entries,
                key@,
            ) ==> r == Err::<(), K2hError>(K2hError::SubkeyWriteFailed) && final(self)@ == old(
                self,
            )@,
            key@.len() > 0 && subkey@.len() > 0 && subval@.len() > 0 && has_key(
                old(self)@.entries,
                key@,
            ) ==> r is Ok && final(self)@ == store_add_subkey(
                old(self)@,
                key@,
                subkey@,
                subval@,
                None,
                None,
            ),
    {
        self.add_subkey_with_options(key, subkey, subval, None, None)
    }

    /// Add a subkey to a key, with a password and an expiration for the
    /// subkey's own entry.
    ///
    /// The subkey is written as a full entry of the namespace, then linked
    /// into the key's ordered subkey list; a name already linked is not
    /// linked twice. The key itself must be present.
    pub fn add_subkey_with_options(
        &mut self,
        key: &str,
        subkey: &str,
        subval: &str,
        password: Option<String>,
        expire_duration: Option<u64>,
    ) -> (r: Result<(), K2hError>)
        requires
            old(self).wf(),
        ensures
            final(self).wf(),
            final(self).spec_handle() == old(self).spec_handle(),
            key@.len() == 0 || subkey@.len() == 0 || subval@.len() == 0 ==> r == Err::<
                (),
                K2hError,
            >(K2hError::EmptyField) && final(self)@ == old(self)@,
            key@.len() > 0 && subkey@.len() > 0 && subval@.len() > 0 && !has_key(
                old(self)@.entries,
                key@,
            ) ==> r == Err::<(), K2hError>(K2hError::SubkeyWriteFailed) && final(self)@ == old(
                self,
            )@,
            key@.len() > 0 && subkey@.len() > 0 && subval@.len() > 0 && has_key(
                old(self)@.entries,
                key@,
            ) ==> r is Ok && final(self)@ == store_add_subkey(
                old(self)@,
                key@,
                subkey@,
                subval@,
                opt_string_view(password),
                expire_duration,
            ),
    {
        if key.is_empty() || subkey.is_empty() || subval.is_empty() {
            return Err(K2hError::EmptyField);
        }
        let k = key.to_owned();
        match Self::find_key(&self.entries, &k) {
            Some(_) => (),
            None => {
                return Err(K2hError::SubkeyWriteFailed);
            },
        }
        let ghost m0 = self@;
        let pw: Option<&str> = match &password {
            Some(p) => Some(p.as_str()),
            None => None,
        };
        proof {
            assert(opt_str_view(pw) == opt_string_view(password));
        }
        let set_result = self.set_with_options(subkey, subval, pw, expire_duration);
        proof {
            assert(set_result is Ok);
            lemma_set_has_key(m0, subkey@, subval@, opt_str_view(pw), expire_duration, key@);
            lemma_add_subkey(
                m0,
                key@,
                subkey@,
                subval@,
                opt_string_view(password),
                expire_duration,
            );
        }
        let ghost m1 = self@;
        let i = match Self::find_key(&self.entries, &k) {
            Some(i) => i,
            None => {
                proof {
                    assert(has_key(m1.entries, key@));
                }
                vstd::pervasive::unreached()
            },
        };
        proof {
            lemma_key_index_of(m1.entries, key@, i as int);
        }
        let sk_owned = subkey.to_owned();
        let linked = Self::find_name(&self.entries[i].subkeys, &sk_owned);
        match linked {
            Some(j) => {
                proof {
                    assert(entry_at(m1.entries, key@).subkeys.contains(subkey@)) by {
                        assert(entry_at(m1.entries, key@).subkeys[j as int] == subkey@);
                    }
                    assert(self@ == store_add_subkey(
                        m0,
                        key@,
                        subkey@,
                        subval@,
                        opt_string_view(password),
                        expire_duration,
                    ));
                }
                Ok(())
            },
            None => {
                let mut e = self.entries.remove(i);
                e.subkeys.push(sk_owned);
                let ghost ev = e@;
                self.entries.insert(i, e);
                proof {
                    let e0 = entry_at(m1.entries, key@);
                    assert(ev.subkeys =~~= e0.subkeys.push(subkey@));
                    assert(ev =~~= (EntryModel { subkeys: e0.subkeys.push(subkey@), ..e0 }));
                    assert(entries_view(self.entries@) =~= m1.entries.update(i as int, ev));
                    assert(self@ =~~= store_add_subkey(
                        m0,
                        key@,
                        subkey@,
                        subval@,
                        opt_string_view(password),
                        expire_duration,
                    ));
                }
                Ok(())
            },
        }
    }

    /// Get the ordered subkey names attached to a key.
    ///
    /// A key with no subkeys and a missing key yield the same error: the
    /// store does not tell the two apart. A listed name may lack a stored
    /// entry of its own: a direct `remove` of a subkey's key deletes the
    /// entry without unlinking the name from this list.
    pub fn get_subkeys(&self, key: &str) -> (r: Result<Option<Vec<String>>, K2hError>)
        requires
            self.wf(),
        ensures
            key@.len() == 0 ==> r == Err::<Option<Vec<String>>, K2hError>(K2hError::EmptyKey),
            key@.len() > 0 && subkeys_of(self@, key@).len() == 0 ==> r == Err::<
                Option<Vec<String>>,
                K2hError,
            >(K2hError::NoSubkeys),
            key@.len() > 0 && subkeys_of(self@, key@).len() > 0 ==> (r matches Ok(Some(v))
                && v.deep_view() == subkeys_of(self@, key@)),
    {
        if key.is_empty() {
            return Err(K2hError::EmptyKey);
        }
        let k = key.to_owned();
        match Self::find_key(&self.entries, &k) {
            Some(i) => {
                proof {
                    lemma_key_index_of(self@.entries, key@, i as int);
                }
                if self.entries[i].subkeys.len() == 0 {
                    Err(K2hError::NoSubkeys)
                } else {
                    Ok(Some(Self::clone_names(&self.entries[i].subkeys)))
                }
            },
            None => Err(K2hError::NoSubkeys),
        }
    }

    /// Remove the named subkeys of a key, in the given order.
    ///
    /// Each removal takes the name out of the key's subkey list and removes
    /// the subkey's own entry. The operation stops at the first name not
    /// attached to the key; removals made up to then stay.
    pub fn remove_subkeys(&mut self, key: &str, subkeys: Vec<&str>) -> (r: Result<
        (),
        K2hError,
    >)
        requires
            old(self).wf(),
        ensures
            final(self).wf(),
            final(self).spec_handle() == old(self).spec_handle(),
            key@.len() == 0 ==> r == Err::<(), K2hError>(K2hError::EmptyKey) && final(self)@
                == old(self)@,
            key@.len() > 0 ==> ({
                let res = store_remove_subkeys(old(self)@, key@, strs_view(subkeys@));
                final(self)@ == res.0 && r == (if res.1 {
                    Ok::<(), K2hError>(())
                } else {
                    Err::<(), K2hError>(K2hError::RemoveFailed)
                })
            }),
    {
        if key.is_empty() {
            return Err(K2hError::EmptyKey);
        }
        let ghost m0 = self@;
        let ghost names = strs_view(subkeys@);
        let k = key.to_owned();
        proof {
            assert(names.skip(0) =~~= names);
        }
        let n = subkeys.len();
        let mut t: usize = 0;
        while t < n
            invariant
                n == subkeys@.len(),
                t <= n,
                names == strs_view(subkeys@),
                k@ == key@,
                key@.len() > 0,
                m0 == old(self)@,
                store_inv(self@),
                self.spec_handle() == old(self).spec_handle(),
                self.spec_handle() != 0,
                store_remove_subkeys(m0, key@, names) == store_remove_subkeys(
                    self@,
                    key@,
                    names.skip(t as int),
                ),
            decreases n - t,
        {
            let ghost pre = self@;
            proof {
                assert(names.skip(t as int)[0] == names[t as int]);
                assert(names.skip(t as int).skip(1) =~~= names.skip(t as int + 1));
            }
            let skt = subkeys[t].to_owned();
            let pi = match Self::find_key(&self.entries, &k) {
                Some(pi) => pi,
                None => {
                    proof {
                        assert(subkeys_of(pre, key@) =~~= Seq::<Seq<char>>::empty());
                        assert(!subkeys_of(pre, key@).contains(names[t as int]));
                    }
                    return Err(K2hError::RemoveFailed);
                },
            };
            proof {
                lemma_key_index_of(pre.entries, key@, pi as int);
            }
            let j = match Self::find_name(&self.entries[pi].subkeys, &skt) {
                Some(j) => j,
                None => {
                    proof {
                        assert(!subkeys_of(pre, key@).contains(names[t as int]));
                    }
                    return Err(K2hError::RemoveFailed);
                },
            };
            proof {
                assert(entry_wf(entry_at(pre.entries, key@)));
                lemma_name_index_of(
                    entry_at(pre.entries, key@).subkeys,
                    names[t as int],
                    j as int,
                );
                lemma_unlink_subkey_preserves_inv(pre, key@, names[t as int]);
            }
            let mut e = self.entries.remove(pi);
            e.subkeys.remove(j);
            let ghost ev = e@;
            self.entries.insert(pi, e);
            let ghost mu = store_unlink_subkey(pre, key@, names[t as int]);
            proof {
                let e0 = entry_at(pre.entries, key@);
                assert(ev.subkeys =~~= e0.subkeys.remove(j as int));
                assert(ev =~~= (EntryModel {
                    subkeys: e0.subkeys.remove(name_index(e0.subkeys, names[t as int])),
                    ..e0
                }));
                assert(entries_view(self.entries@) =~= pre.entries.update(pi as int, ev));
                assert(self@ =~~= mu);
            }
            match Self::find_key(&self.entries, &skt) {
                Some(p) => {
                    proof {
                        lemma_key_index_of(mu.entries, names[t as int], p as int);
                    }
                    self.entries.remove(p);
                    proof {
                        assert(entries_view(self.entries@) =~= mu.entries.remove(p as int));
                        assert(self@ =~~= store_remove_entry(mu, names[t as int]));
                    }
                },
                None => {
                    proof {
                        assert(store_remove_entry(mu, names[t as int]) == mu);
                    }
                },
            }
            proof {
                lemma_remove_entry_preserves_inv(mu, names[t as int]);
                assert(self@ == store_remove_subkey(pre, key@, names[t as int]));
                assert(store_remove_subkeys(pre, key@, names.skip(t as int))
                    == store_remove_subkeys(self@, key@, names.skip(t as int + 1)));
            }
            t += 1;
        }
        proof {
            assert(names.skip(n as int) =~~= Seq::<Seq<char>>::empty());
        }
        Ok(())
    }

    /// Set subkeys to a key: each pair is added as `add_subkey` does.
    pub fn set_subkeys(&mut self, key: &str, subkeys: Vec<(&str, &str)>) -> (r: Result<
        (),
        K2hError,
    >)
        requires
            old(self).wf(),
        ensures
            final(self).wf(),
            final(self).spec_handle() == old(self).spec_handle(),
            key@.len() == 0 ==> r == Err::<(), K2hError>(K2hError::EmptyKey) && final(self)@
                == old(self)@,
            key@.len() > 0 ==> ({
                let res = store_set_subkeys(old(self)@, key@, pairs_view(subkeys@), None, None);
                final(self)@ == res.0 && r == (match res.1 {
                    None => Ok::<(), K2hError>(()),
                    Some(e) => Err::<(), K2hError>(e),
                })
            }),
    {
        self.set_subkeys_with_options(key, subkeys, None, None)
    }

    /// Set subkeys to a key, writing each subkey's entry with the given
    /// password and expiration.
    ///
    /// The pairs are written front to back; the operation stops at the
    /// first pair with an empty name or value, and writes made up to then
    /// stay.
    pub fn set_subkeys_with_options(
        &mut self,
        key: &str,
        subkeys: Vec<(&str, &str)>,
        password: Option<String>,
        expire_duration: Option<u64>,
    ) -> (r: Result<(), K2hError>)
        requires
            old(self).wf(),
        ensures
            final(self).wf(),
            final(self).spec_handle() == old(self).spec_handle(),
            key@.len() == 0 ==> r == Err::<(), K2hError>(K2hError::EmptyKey) && final(self)@
                == old(self)@,
            key@.len() > 0 ==> ({
                let res = store_set_subkeys(
                    old(self)@,
                    key@,
                    pairs_view(subkeys@),
                    opt_string_view(password),
                    expire_duration,
                );
                final(self)@ == res.0 && r == (match res.1 {
                    None => Ok::<(), K2hError>(()),
                    Some(e) => Err::<(), K2hError>(e),
                })
            }),
    {
        if key.is_empty() {
            return Err(K2hError::EmptyKey);
        }
        let ghost m0 = self@;
        let ghost pairs = pairs_view(subkeys@);
        let ghost pv = opt_string_view(password);
        proof {
            assert(pairs.skip(0) =~~= pairs);
        }
        let n = subkeys.len();
        let mut t: usize = 0;
        while t < n
            invariant
                n == subkeys@.len(),
                t <= n,
                pairs == pairs_view(subkeys@),
                pv == opt_string_view(password),
                key@.len() > 0,
                m0 == old(self)@,
                store_inv(self@),
                self.spec_handle() == old(self).spec_handle(),
                self.spec_handle() != 0,
                store_set_subkeys(m0, key@, pairs, pv, expire_duration) == store_set_subkeys(
                    self@,
                    key@,
                    pairs.skip(t as int),
                    pv,
                    expire_duration,
                ),
            decreases n - t,
        {
            let ghost pre = self@;
            proof {
                assert(pairs.skip(t as int)[0] == pairs[t as int]);
                assert(pairs.skip(t as int).skip(1) =~~= pairs.skip(t as int + 1));
            }
            let (sk, sv) = subkeys[t];
            let pw_c: Option<String> = match &password {
                Some(p) => Some(p.clone()),
                None => None,
            };
            proof {
                assert(opt_string_view(pw_c) == pv);
            }
            match self.add_subkey_with_options(key, sk, sv, pw_c, expire_duration) {
                Ok(_) => {
                    proof {
                        assert(sk@.len() > 0 && sv@.len() > 0 && has_key(pre.entries, key@));
                        assert(self@ == store_add_subkey(
                            pre,
                            key@,
                            sk@,
                            sv@,
                            pv,
                            expire_duration,
                        ));
                    }
                },
                Err(e) => {
                    proof {
                        assert(store_set_subkeys(pre, key@, pairs.skip(t as int), pv,
                        expire_duration) == (pre, Some(e)));
                    }
                    return Err(e);
                },
            }
            t += 1;
        }
        proof {
            assert(pairs.skip(n as int) =~~= Seq::<(Seq<char>, Seq<char>)>::empty());
        }
        Ok(())
    }

    /// Set an attribute of a key: a name/value pair of metadata attached to
    /// the key, apart from its subkeys. An attribute of the same name is
    /// overwritten. The key must be present.
    pub fn set_attribute(&mut self, key: &str, attr_name: &str, attr_val: &str) -> (r: Result<
        (),
        K2hError,
    >)
        requires
            old(self).wf(),
        ensures
            final(self).wf(),
            final(self).spec_handle() == old(self).spec_handle(),
            key@.len() == 0 || attr_name@.len() == 0 || attr_val@.len() == 0 ==> r == Err::<
                (),
                K2hError,
            >(K2hError::EmptyField) && final(self)@ == old(self)@,
            key@.len() > 0 && attr_name@.len() > 0 && attr_val@.len() > 0 && !has_key(
                old(self)@.entries,
                key@,
            ) ==> r == Err::<(), K2hError>(K2hError::AttrWriteFailed) && final(self)@ == old(
                self,
            )@,
            key@.len() > 0 && attr_name@.len() > 0 && attr_val@.len() > 0 && has_key(
                old(self)@.entries,
                key@,
            ) ==> r is Ok && final(self)@ == store_set_attribute(
                old(self)@,
                key@,
                attr_name@,
                attr_val@,
            ),
    {
        if key.is_empty() || attr_name.is_empty() || attr_val.is_empty() {
            return Err(K2hError::EmptyField);
        }
        let ghost m0 = self@;
        let k = key.to_owned();
        let i = match Self::find_key(&self.entries, &k) {
            Some(i) => i,
            None => {
                return Err(K2hError::AttrWriteFailed);
            },
        };
        proof {
            lemma_key_index_of(m0.entries, key@, i as int);
            lemma_set_attribute_preserves_inv(m0, key@, attr_name@, attr_val@);
        }
        let name_owned = attr_name.to_owned();
        let mut e = self.entries.remove(i);
        let ghost e0 = e@;
        match Self::find_attr(&e.attrs, &name_owned) {
            Some(j) => {
                proof {
                    assert(entry_wf(e0));
                    lemma_attr_index_of(e0.attrs, attr_name@, j as int);
                }
                e.attrs.remove(j);
                e.attrs.insert(j, Attr { name: name_owned, value: attr_val.to_owned() });
                proof {
                    assert(e@.attrs =~~= e0.attrs.update(
                        attr_index(e0.attrs, attr_name@),
                        AttrModel { name: attr_name@, value: attr_val@ },
                    ));
                }
            },
            None => {
                e.attrs.push(Attr { name: name_owned, value: attr_val.to_owned() });
                proof {
                    assert(e@.attrs =~~= e0.attrs.push(
                        AttrModel { name: attr_name@, value: attr_val@ },
                    ));
                }
            },
        }
        let ghost ev = e@;
        self.entries.insert(i, e);
        proof {
            assert(ev =~~= (EntryModel { attrs: ev.attrs, ..e0 }));
            assert(entries_view(self.entries@) =~= m0.entries.update(i as int, ev));
            assert(self@ =~~= store_set_attribute(m0, key@, attr_name@, attr_val@));
        }
        Ok(())
    }

    /// Get a snapshot of the attributes attached to a key, as name/value
    /// pairs.
    ///
    /// A key with no attributes and a missing key yield the same error: the
    /// store does not tell the two apart.
    pub fn get_attributes(&self, key: &str) -> (r: Result<
        Option<Vec<(String, String)>>,
        K2hError,
    >)
        requires
            self.wf(),
        ensures
            key@.len() == 0 ==> r == Err::<Option<Vec<(String, String)>>, K2hError>(
                K2hError::EmptyKey,
            ),
            key@.len() > 0 && attrs_of(self@, key@).len() == 0 ==> r == Err::<
                Option<Vec<(String, String)>>,
                K2hError,
            >(K2hError::NoAttributes),
            key@.len() > 0 && attrs_of(self@, key@).len() > 0 ==> (r matches Ok(Some(v))
                && v.deep_view() == attr_pairs(attrs_of(self@, key@))),
    {
        if key.is_empty() {
            return Err(K2hError::EmptyKey);
        }
        let k = key.to_owned();
        let i = match Self::find_key(&self.entries, &k) {
            Some(i) => i,
            None => {
                return Err(K2hError::NoAttributes);
            },
        };
        proof {
            lemma_key_index_of(self@.entries, key@, i as int);
        }
        let na = self.entries[i].attrs.len();
        if na == 0 {
            return Err(K2hError::NoAttributes);
        }
        let mut out: Vec<(String, String)> = Vec::new();
        let mut j: usize = 0;
        while j < na
            invariant
                i < self.entries@.len(),
                na == self.entries@[i as int].attrs@.len(),
                j <= na,
                out@.len() == j,
                forall|p: int| 0 <= p < j ==> out.deep_view()[p] == (
                self.entries@[i as int].attrs@[p]@.name,
                self.entries@[i as int].attrs@[p]@.value,
                ),
            decreases na - j,
        {
            let ghost prev = out@;
            let ghost prevdeep = out.deep_view();
            out.push(
                (self.entries[i].attrs[j].name.clone(), self.entries[i].attrs[j].value.clone()),
            );
            proof {
                assert forall|p: int| 0 <= p < j + 1 implies out.deep_view()[p] == (
                    self.entries@[i as int].attrs@[p]@.name,
                    self.entries@[i as int].attrs@[p]@.value,
                ) by {
                    assert(out.deep_view()[p] == out@[p].deep_view());
                    if p < j {
                        assert(out@[p] == prev[p]);
                        assert(prevdeep[p] == prev[p].deep_view());
                    }
                }
            }
            j += 1;
        }
        proof {
            assert(out.deep_view() =~~= attr_pairs(attrs_of(self@, key@)));
        }
        Ok(Some(out))
    }

    /// Switch encrypt-by-default on or off. While it is on and a default
    /// encryption password is registered, every entry written without an
    /// explicit password is stored under the default password.
    pub fn enable_encryption(&mut self, enable: bool) -> (r: Result<(), K2hError>)
        requires
            old(self).wf(),
        ensures
            final(self).wf(),
            final(self).spec_handle() == old(self).spec_handle(),
            r is Ok,
            final(self)@ == (StoreModel { enc_enabled: enable, ..old(self)@ }),
    {
        self.enc_enabled = enable;
        proof {
            assert(self@ =~~= (StoreModel { enc_enabled: enable, ..old(self)@ }));
        }
        Ok(())
    }

    /// Switch the history common attribute on or off. The store records the
    /// flag; keeping value history is the storage engine's own work below
    /// this model.
    pub fn enable_history(&mut self, enable: bool) -> (r: Result<(), K2hError>)
        requires
            old(self).wf(),
        ensures
            final(self).wf(),
            final(self).spec_handle() == old(self).spec_handle(),
            r is Ok,
            final(self)@ == (StoreModel { history_enabled: enable, ..old(self)@ }),
    {
        self.history_enabled = enable;
        proof {
            assert(self@ =~~= (StoreModel { history_enabled: enable, ..old(self)@ }));
        }
        Ok(())
    }

    /// Switch the modification-time common attribute on or off. The store
    /// records the flag; stamping entries is the storage engine's own work
    /// below this model.
    pub fn enable_mtime(&mut self, enable: bool) -> (r: Result<(), K2hError>)
        requires
            old(self).wf(),
        ensures
            final(self).wf(),
            final(self).spec_handle() == old(self).spec_handle(),
            r is Ok,
            final(self)@ == (StoreModel { mtime_enabled: enable, ..old(self)@ }),
    {
        self.mtime_enabled = enable;
        proof {
            assert(self@ =~~= (StoreModel { mtime_enabled: enable, ..old(self)@ }));
        }
        Ok(())
    }

    /// Register a password for decryption: a read may then open any entry
    /// encrypted under it without the password being given to the read.
    pub fn add_decryption_password(&mut self, password: &str) -> (r: Result<(), K2hError>)
        requires
            old(self).wf(),
        ensures
            final(self).wf(),
            final(self).spec_handle() == old(self).spec_handle(),
            password@.len() == 0 ==> r == Err::<(), K2hError>(K2hError::EmptyField) && final(self)@ == old(self)@,
            password@.len() > 0 ==> r is Ok && final(self)@ == (StoreModel {
                dec_passwords: old(self)@.dec_passwords.push(password@),
                ..old(self)@
            }),
    {
        if password.is_empty() {
            return Err(K2hError::EmptyField);
        }
        self.dec_passwords.push(password.to_owned());
        proof {
            assert(self.dec_passwords.deep_view()
                =~~= old(self).dec_passwords.deep_view().push(password@));
            assert(self@ =~~= (StoreModel {
                dec_passwords: old(self)@.dec_passwords.push(password@),
                ..old(self)@
            }));
            let m1 = self@;
            let m0 = old(self)@;
            assert forall|p: int| 0 <= p < m1.dec_passwords.len() implies
                m1.dec_passwords[p].len() > 0 by {
                if p < m0.dec_passwords.len() {
                    assert(m1.dec_passwords[p] == m0.dec_passwords[p]);
                }
            }
            if m0.default_password is Some {
                let d = m0.default_password->0;
                let q = choose|q: int|
                    0 <= q < m0.dec_passwords.len() && m0.dec_passwords[q] == d;
                assert(m1.dec_passwords[q] == d);
            }
        }
        Ok(())
    }

    /// Register the default encryption password. It serves writes where
    /// encrypt-by-default is on, and reads as a decryption password.
    pub fn set_default_encryption_password(&mut self, password: &str) -> (r: Result<
        (),
        K2hError,
    >)
        requires
            old(self).wf(),
        ensures
            final(self).wf(),
            final(self).spec_handle() == old(self).spec_handle(),
            password@.len() == 0 ==> r == Err::<(), K2hError>(K2hError::EmptyField) && final(self)@ == old(self)@,
            password@.len() > 0 ==> r is Ok && final(self)@ == (StoreModel {
                default_password: Some(password@),
                dec_passwords: old(self)@.dec_passwords.push(password@),
                ..old(self)@
            }),
    {
        if password.is_empty() {
            return Err(K2hError::EmptyField);
        }
        self.dec_passwords.push(password.to_owned());
        self.default_password = Some(password.to_owned());
        proof {
            assert(self.dec_passwords.deep_view()
                =~~= old(self).dec_passwords.deep_view().push(password@));
            assert(self@ =~~= (StoreModel {
                default_password: Some(password@),
                dec_passwords: old(self)@.dec_passwords.push(password@),
                ..old(self)@
            }));
            let m1 = self@;
            let m0 = old(self)@;
            assert forall|p: int| 0 <= p < m1.dec_passwords.len() implies
                m1.dec_passwords[p].len() > 0 by {
                if p < m0.dec_passwords.len() {
                    assert(m1.dec_passwords[p] == m0.dec_passwords[p]);
                }
            }
            assert(m1.dec_passwords[m0.dec_passwords.len() as int] == password@);
        }
        Ok(())
    }

    /// Start journaling into a transaction file.
    pub fn begin_tx(&mut self, txfile: &str) -> (r: Result<(), K2hError>)
        requires
            old(self).wf(),
        ensures
            final(self).wf(),
            final(self).spec_handle() == old(self).spec_handle(),
            txfile@.len() == 0 ==> r == Err::<(), K2hError>(K2hError::TxFailed) && final(self)@ == old(self)@,
            txfile@.len() > 0 ==> r is Ok && final(self)@ == (StoreModel {
                tx_file: Some(txfile@),
                ..old(self)@
            }),
    {
        self.begin_tx_with_options(txfile, None, None, None)
    }

    /// Start journaling into a transaction file.
    ///
    /// The model records which journal file is active; the journal's
    /// prefix, parameter and expiration configure the storage engine's own
    /// journaling below this model and are not recorded.
    pub fn begin_tx_with_options(
        &mut self,
        txfile: &str,
        prefix: Option<String>,
        param: Option<String>,
        expire_duration: Option<u64>,
    ) -> (r: Result<(), K2hError>)
        requires
            old(self).wf(),
        ensures
            final(self).wf(),
            final(self).spec_handle() == old(self).spec_handle(),
            txfile@.len() == 0 ==> r == Err::<(), K2hError>(K2hError::TxFailed) && final(self)@ == old(self)@,
            txfile@.len() > 0 ==> r is Ok && final(self)@ == (StoreModel {
                tx_file: Some(txfile@),
                ..old(self)@
            }),
    {
        let _ = prefix;
        let _ = param;
        let _ = expire_duration;
        if txfile.is_empty() {
            return Err(K2hError::TxFailed);
        }
        self.tx_file = Some(txfile.to_owned());
        proof {
            assert(self@ =~~= (StoreModel { tx_file: Some(txfile@), ..old(self)@ }));
        }
        Ok(())
    }

    /// Stop transaction journaling. Stopping with no transaction active is
    /// a no-op success.
    pub fn stop_tx(&mut self) -> (r: Result<(), K2hError>)
        requires
            old(self).wf(),
        ensures
            final(self).wf(),
            final(self).spec_handle() == old(self).spec_handle(),
            r is Ok,
            final(self)@ == (StoreModel { tx_file: None, ..old(self)@ }),
    {
        self.tx_file = None;
        proof {
            assert(self@ =~~= (StoreModel { tx_file: None, ..old(self)@ }));
        }
        Ok(())
    }

    /// Get the file descriptor of the active transaction journal.
    ///
    /// The model keeps no descriptor table: while a transaction is active
    /// the store reports the first descriptor past the standard streams,
    /// standing for the journal file the storage engine holds open below
    /// this model. With no transaction active, the call fails.
    pub fn get_tx_file_fd(&self) -> (r: Result<i32, K2hError>)
        requires
            self.wf(),
        ensures
            self@.tx_file is Some ==> r == Ok::<i32, K2hError>(3),
            self@.tx_file is None ==> r == Err::<i32, K2hError>(K2hError::TxFailed),
    {
        match &self.tx_file {
            Some(_) => Ok(3),
            None => Err(K2hError::TxFailed),
        }
    }

    /// Create a namespace's backing file.
    ///
    /// The model validates the request; laying the file out on disk is the
    /// storage engine's own work below this model.
    pub fn create(path: &str) -> (r: Result<(), K2hError>)
        ensures
            r is Ok <==> path@.len() > 0,
            r is Err ==> r == Err::<(), K2hError>(K2hError::OpenFailed),
    {
        K2hash::create_with_options(path, 8, 4, 1024, 512)
    }

    /// Create a namespace's backing file with explicit tuning parameters.
    ///
    /// The mask bits, collision-mask bits, element count and page size are
    /// opaque tuning handed through to the storage engine; the model
    /// validates the path alone.
    pub fn create_with_options(
        path: &str,
        maskbit: i32,
        cmaskbit: i32,
        maxelementcnt: i32,
        pagesize: usize,
    ) -> (r: Result<(), K2hError>)
        ensures
            r is Ok <==> path@.len() > 0,
            r is Err ==> r == Err::<(), K2hError>(K2hError::OpenFailed),
    {
        let _ = maskbit;
        let _ = cmaskbit;
        let _ = maxelementcnt;
        let _ = pagesize;
        if path.is_empty() {
            return Err(K2hError::OpenFailed);
        }
        Ok(())
    }

    /// Dump the namespace to an archive file.
    ///
    /// The model validates the request and leaves the namespace unchanged;
    /// the archive's bytes are the storage engine's own work below this
    /// model.
    pub fn dump_to_file(&self, path: &str) -> (r: Result<(), K2hError>)
        requires
            self.wf(),
        ensures
            r is Ok <==> path@.len() > 0,
            r is Err ==> r == Err::<(), K2hError>(K2hError::EmptyField),
    {
        self.dump_to_file_with_options(path, true)
    }

    /// Dump the namespace to an archive file, skipping damaged elements
    /// where asked to.
    pub fn dump_to_file_with_options(&self, path: &str, is_skip_error: bool) -> (r: Result<
        (),
        K2hError,
    >)
        requires
            self.wf(),
        ensures
            r is Ok <==> path@.len() > 0,
            r is Err ==> r == Err::<(), K2hError>(K2hError::EmptyField),
    {
        let _ = is_skip_error;
        if path.is_empty() {
            return Err(K2hError::EmptyField);
        }
        Ok(())
    }

    /// Load an archive file into the namespace.
    ///
    /// The model validates the request; what the archive holds lives with
    /// the storage engine below this model, so the model's view of the
    /// namespace is unchanged.
    pub fn load_from_file(&self, path: &str, is_skip_error: Option<bool>) -> (r: Result<
        (),
        K2hError,
    >)
        requires
            self.wf(),
        ensures
            r is Ok <==> path@.len() > 0,
            r is Err ==> r == Err::<(), K2hError>(K2hError::EmptyField),
    {
        let _ = is_skip_error;
        if path.is_empty() {
            return Err(K2hError::EmptyField);
        }
        Ok(())
    }

    /// A snapshot of all keys of the namespace, in storage order.
    pub(crate) fn snapshot_keys(&self) -> (r: Vec<String>)
        ensures
            r.deep_view() == store_keys(self@),
    {
        let n = self.entries.len();
        let mut r: Vec<String> = Vec::new();
        let mut i: usize = 0;
        while i < n
            invariant
                n == self.entries@.len(),
                i <= n,
                r@.len() == i,
                forall|j: int| 0 <= j < i ==> r.deep_view()[j] == self.entries@[j]@.key,
            decreases n - i,
        {
            let ghost prev = r@;
            let ghost prevdeep = r.deep_view();
            r.push(self.entries[i].key.clone());
            proof {
                assert forall|j: int| 0 <= j < i + 1 implies r.deep_view()[j]
                    == self.entries@[j]@.key by {
                    assert(r.deep_view()[j] == r@[j].deep_view());
                    if j < i {
                        assert(r@[j] == prev[j]);
                        assert(prevdeep[j] == prev[j].deep_view());
                    }
                }
            }
            i += 1;
        }
        proof {
            assert(r.deep_view() =~~= store_keys(self@));
        }
        r
    }

    /// A snapshot of the subkey names of `key`, in storage order; empty
    /// where the key is absent.
    pub(crate) fn snapshot_subkeys(&self, key: &String) -> (r: Vec<String>)
        requires
            self.wf(),
        ensures
            r.deep_view() == subkeys_of(self@, key@),
    {
        match Self::find_key(&self.entries, key) {
            Some(i) => {
                proof {
                    lemma_key_index_of(self@.entries, key@, i as int);
                }
                Self::clone_names(&self.entries[i].subkeys)
            },
            None => {
                let r: Vec<String> = Vec::new();
                proof {
                    assert(r.deep_view() =~~= Seq::<Seq<char>>::empty());
                }
                r
            },
        }
    }

    /// Whether two optional prefixes are the same.
    fn opt_str_eq(a: &Option<String>, b: &Option<String>) -> (r: bool)
        ensures
            r == (opt_string_view(*a) == opt_string_view(*b)),
    {
        match (a, b) {
            (None, None) => true,
            (Some(x), Some(y)) => *x == *y,
            _ => false,
        }
    }

    /// A copy of an optional prefix.
    fn clone_opt_string(a: &Option<String>) -> (r: Option<String>)
        ensures
            opt_string_view(r) == opt_string_view(*a),
    {
        match a {
            None => None,
            Some(x) => Some(x.clone()),
        }
    }

    /// Find the value-queue partition of `prefix`, if any.
    fn find_vq(qs: &Vec<VQueueSlot>, prefix: &Option<String>) -> (r: Option<usize>)
        ensures
            match r {
                Some(i) => i < qs@.len() && vqueues_view(qs@)[i as int].prefix
                    == opt_string_view(*prefix),
                None => !vq_has(vqueues_view(qs@), opt_string_view(*prefix)),
            },
    {
        let n = qs.len();
        let mut i: usize = 0;
        while i < n
            invariant
                n == qs@.len(),
                forall|j: int|
                    0 <= j < i ==> vqueues_view(qs@)[j].prefix != opt_string_view(*prefix),
            decreases n - i,
        {
            if Self::opt_str_eq(&qs[i].prefix, prefix) {
                return Some(i);
            }
            i += 1;
        }
        proof {
            if vq_has(vqueues_view(qs@), opt_string_view(*prefix)) {
                let j = choose|j: int|
                    0 <= j < vqueues_view(qs@).len() && vqueues_view(qs@)[j].prefix
                        == opt_string_view(*prefix);
                assert(vqueues_view(qs@)[j].prefix != opt_string_view(*prefix));
            }
        }
        None
    }

    /// Find the key-value-queue partition of `prefix`, if any.
    fn find_kq(qs: &Vec<KQueueSlot>, prefix: &Option<String>) -> (r: Option<usize>)
        ensures
            match r {
                Some(i) => i < qs@.len() && kqueues_view(qs@)[i as int].prefix
                    == opt_string_view(*prefix),
                None => !kq_has(kqueues_view(qs@), opt_string_view(*prefix)),
            },
    {
        let n = qs.len();
        let mut i: usize = 0;
        while i < n
            invariant
                n == qs@.len(),
                forall|j: int|
                    0 <= j < i ==> kqueues_view(qs@)[j].prefix != opt_string_view(*prefix),
            decreases n - i,
        {
            if Self::opt_str_eq(&qs[i].prefix, prefix) {
                return Some(i);
            }
            i += 1;
        }
        proof {
            if kq_has(kqueues_view(qs@), opt_string_view(*prefix)) {
                let j = choose|j: int|
                    0 <= j < kqueues_view(qs@).len() && kqueues_view(qs@)[j].prefix
                        == opt_string_view(*prefix);
                assert(kqueues_view(qs@)[j].prefix != opt_string_view(*prefix));
            }
        }
        None
    }

    /// The number of pending elements in the value-queue partition of
    /// `prefix`.
    pub(crate) fn vq_count(&self, prefix: &Option<String>) -> (r: usize)
        requires
            self.wf(),
        ensures
            r == vq_items(self@, opt_string_view(*prefix)).len(),
    {
        match Self::find_vq(&self.vqueues, prefix) {
            Some(i) => {
                proof {
                    lemma_vq_index_of(self@.vqueues, opt_string_view(*prefix), i as int);
                }
                self.vqueues[i].items.len()
            },
            None => 0,
        }
    }

    /// The element at `idx` of the value-queue partition of `prefix`, in
    /// storage order, head first.
    pub(crate) fn vq_at(&self, prefix: &Option<String>, idx: usize) -> (r: Option<String>)
        requires
            self.wf(),
        ensures
            idx < vq_items(self@, opt_string_view(*prefix)).len() ==> (r matches Some(v)
                && v@ == vq_items(self@, opt_string_view(*prefix))[idx as int]),
            idx >= vq_items(self@, opt_string_view(*prefix)).len() ==> r is None,
    {
        match Self::find_vq(&self.vqueues, prefix) {
            Some(i) => {
                proof {
                    lemma_vq_index_of(self@.vqueues, opt_string_view(*prefix), i as int);
                }
                if idx < self.vqueues[i].items.len() {
                    Some(self.vqueues[i].items[idx].clone())
                } else {
                    None
                }
            },
            None => None,
        }
    }

    /// Append an element at the tail of the value-queue partition of
    /// `prefix`, creating the partition where missing.
    pub(crate) fn vq_push_item(&mut self, prefix: &Option<String>, value: &str)
        requires
            old(self).wf(),
        ensures
            final(self).wf(),
            final(self).spec_handle() == old(self).spec_handle(),
            final(self)@ == store_vq_set(
                old(self)@,
                opt_string_view(*prefix),
                vq_items(old(self)@, opt_string_view(*prefix)).push(value@),
            ),
    {
        let ghost m0 = self@;
        let ghost pv = opt_string_view(*prefix);
        proof {
            lemma_vq_set(m0, pv, vq_items(m0, pv).push(value@));
        }
        match Self::find_vq(&self.vqueues, prefix) {
            Some(i) => {
                proof {
                    lemma_vq_index_of(m0.vqueues, pv, i as int);
                }
                let mut s = self.vqueues.remove(i);
                s.items.push(value.to_owned());
                let ghost sv = s@;
                self.vqueues.insert(i, s);
                proof {
                    assert(sv.items =~~= vq_items(m0, pv).push(value@));
                    assert(sv =~~= (VQueueModel {
                        prefix: pv,
                        items: vq_items(m0, pv).push(value@),
                    }));
                    assert(vqueues_view(self.vqueues@) =~= m0.vqueues.update(i as int, sv));
                    assert(self@ =~~= store_vq_set(m0, pv, vq_items(m0, pv).push(value@)));
                }
            },
            None => {
                let mut items: Vec<String> = Vec::new();
                items.push(value.to_owned());
                let s = VQueueSlot { prefix: Self::clone_opt_string(prefix), items };
                let ghost sv = s@;
                self.vqueues.push(s);
                proof {
                    assert(vq_items(m0, pv) =~~= Seq::<Seq<char>>::empty());
                    assert(sv.items =~~= vq_items(m0, pv).push(value@));
                    assert(sv =~~= (VQueueModel {
                        prefix: pv,
                        items: vq_items(m0, pv).push(value@),
                    }));
                    assert(vqueues_view(self.vqueues@) =~= m0.vqueues.push(sv));
                    assert(self@ =~~= store_vq_set(m0, pv, vq_items(m0, pv).push(value@)));
                }
            },
        }
    }

    /// Pop the head element of the value-queue partition of `prefix`.
    pub(crate) fn vq_pop_head(&mut self, prefix: &Option<String>) -> (r: Option<String>)
        requires
            old(self).wf(),
        ensures
            final(self).wf(),
            final(self).spec_handle() == old(self).spec_handle(),
            vq_items(old(self)@, opt_string_view(*prefix)).len() == 0 ==> r is None && final(self)@ == old(self)@,
            vq_items(old(self)@, opt_string_view(*prefix)).len() > 0 ==> (r matches Some(v)
                && v@ == vq_items(old(self)@, opt_string_view(*prefix))[0] && final(self)@
                == store_vq_set(
                old(self)@,
                opt_string_view(*prefix),
                vq_items(old(self)@, opt_string_view(*prefix)).drop_first(),
            )),
    {
        let ghost m0 = self@;
        let ghost pv = opt_string_view(*prefix);
        let i = match Self::find_vq(&self.vqueues, prefix) {
            Some(i) => i,
            None => {
                return None;
            },
        };
        proof {
            lemma_vq_index_of(m0.vqueues, pv, i as int);
        }
        if self.vqueues[i].items.len() == 0 {
            return None;
        }
        proof {
            lemma_vq_set(m0, pv, vq_items(m0, pv).drop_first());
        }
        let mut s = self.vqueues.remove(i);
        let v = s.items.remove(0);
        let ghost sv = s@;
        self.vqueues.insert(i, s);
        proof {
            assert(sv.items =~~= vq_items(m0, pv).drop_first());
            assert(sv =~~= (VQueueModel {
                prefix: pv,
                items: vq_items(m0, pv).drop_first(),
            }));
            assert(vqueues_view(self.vqueues@) =~= m0.vqueues.update(i as int, sv));
            assert(self@ =~~= store_vq_set(m0, pv, vq_items(m0, pv).drop_first()));
        }
        Some(v)
    }

    /// Pop the tail element of the value-queue partition of `prefix`.
    pub(crate) fn vq_pop_tail(&mut self, prefix: &Option<String>) -> (r: Option<String>)
        requires
            old(self).wf(),
        ensures
            final(self).wf(),
            final(self).spec_handle() == old(self).spec_handle(),
            vq_items(old(self)@, opt_string_view(*prefix)).len() == 0 ==> r is None && final(self)@ == old(self)@,
            vq_items(old(self)@, opt_string_view(*prefix)).len() > 0 ==> (r matches Some(v)
                && v@ == vq_items(old(self)@, opt_string_view(*prefix)).last() && final(self)@ == store_vq_set(
                old(self)@,
                opt_string_view(*prefix),
                vq_items(old(self)@, opt_string_view(*prefix)).drop_last(),
            )),
    {
        let ghost m0 = self@;
        let ghost pv = opt_string_view(*prefix);
        let i = match Self::find_vq(&self.vqueues, prefix) {
            Some(i) => i,
            None => {
                return None;
            },
        };
        proof {
            lemma_vq_index_of(m0.vqueues, pv, i as int);
        }
        if self.vqueues[i].items.len() == 0 {
            return None;
        }
        proof {
            lemma_vq_set(m0, pv, vq_items(m0, pv).drop_last());
        }
        let mut s = self.vqueues.remove(i);
        let v = match s.items.pop() {
            Some(v) => v,
            None => vstd::pervasive::unreached(),
        };
        let ghost sv = s@;
        self.vqueues.insert(i, s);
        proof {
            assert(sv.items =~~= vq_items(m0, pv).drop_last());
            assert(sv =~~= (VQueueModel {
                prefix: pv,
                items: vq_items(m0, pv).drop_last(),
            }));
            assert(vqueues_view(self.vqueues@) =~= m0.vqueues.update(i as int, sv));
            assert(self@ =~~= store_vq_set(m0, pv, vq_items(m0, pv).drop_last()));
        }
        Some(v)
    }

    /// Empty the value-queue partition of `prefix`; a missing partition
    /// stays missing.
    pub(crate) fn vq_clear_part(&mut self, prefix: &Option<String>)
        requires
            old(self).wf(),
        ensures
            final(self).wf(),
            final(self).spec_handle() == old(self).spec_handle(),
            final(self)@ == store_vq_clear(old(self)@, opt_string_view(*prefix)),
    {
        let ghost m0 = self@;
        let ghost pv = opt_string_view(*prefix);
        match Self::find_vq(&self.vqueues, prefix) {
            Some(i) => {
                proof {
                    lemma_vq_index_of(m0.vqueues, pv, i as int);
                    lemma_vq_set(m0, pv, Seq::empty());
                }
                let mut s = self.vqueues.remove(i);
                s.items.clear();
                let ghost sv = s@;
                self.vqueues.insert(i, s);
                proof {
                    assert(sv.items =~~= Seq::<Seq<char>>::empty());
                    assert(sv =~~= (VQueueModel { prefix: pv, items: Seq::empty() }));
                    assert(vqueues_view(self.vqueues@) =~= m0.vqueues.update(i as int, sv));
                    assert(self@ =~~= store_vq_set(m0, pv, Seq::empty()));
                }
            },
            None => {
                proof {
                    assert(store_vq_clear(m0, pv) == m0);
                }
            },
        }
    }

    /// The number of pending pairs in the key-value-queue partition of
    /// `prefix`.
    pub(crate) fn kq_count(&self, prefix: &Option<String>) -> (r: usize)
        requires
            self.wf(),
        ensures
            r == kq_items(self@, opt_string_view(*prefix)).len(),
    {
        match Self::find_kq(&self.kqueues, prefix) {
            Some(i) => {
                proof {
                    lemma_kq_index_of(self@.kqueues, opt_string_view(*prefix), i as int);
                }
                self.kqueues[i].items.len()
            },
            None => 0,
        }
    }

    /// The pair at `idx` of the key-value-queue partition of `prefix`, in
    /// storage order, head first.
    pub(crate) fn kq_at(&self, prefix: &Option<String>, idx: usize) -> (r: Option<
        (String, String),
    >)
        requires
            self.wf(),
        ensures
            idx < kq_items(self@, opt_string_view(*prefix)).len() ==> (r matches Some(kv)
                && kv.deep_view() == kq_items(self@, opt_string_view(*prefix))[idx as int]),
            idx >= kq_items(self@, opt_string_view(*prefix)).len() ==> r is None,
    {
        match Self::find_kq(&self.kqueues, prefix) {
            Some(i) => {
                proof {
                    lemma_kq_index_of(self@.kqueues, opt_string_view(*prefix), i as int);
                }
                if idx < self.kqueues[i].items.len() {
                    Some(
                        (
                            self.kqueues[i].items[idx].0.clone(),
                            self.kqueues[i].items[idx].1.clone(),
                        ),
                    )
                } else {
                    None
                }
            },
            None => None,
        }
    }

    /// Append a pair at the tail of the key-value-queue partition of
    /// `prefix`, creating the partition where missing.
    pub(crate) fn kq_push_item(&mut self, prefix: &Option<String>, key: &str, value: &str)
        requires
            old(self).wf(),
        ensures
            final(self).wf(),
            final(self).spec_handle() == old(self).spec_handle(),
            final(self)@ == store_kq_set(
                old(self)@,
                opt_string_view(*prefix),
                kq_items(old(self)@, opt_string_view(*prefix)).push((key@, value@)),
            ),
    {
        let ghost m0 = self@;
        let ghost pv = opt_string_view(*prefix);
        proof {
            lemma_kq_set(m0, pv, kq_items(m0, pv).push((key@, value@)));
        }
        match Self::find_kq(&self.kqueues, prefix) {
            Some(i) => {
                proof {
                    lemma_kq_index_of(m0.kqueues, pv, i as int);
                }
                let mut s = self.kqueues.remove(i);
                s.items.push((key.to_owned(), value.to_owned()));
                let ghost sv = s@;
                self.kqueues.insert(i, s);
                proof {
                    assert(sv.items =~~= kq_items(m0, pv).push((key@, value@)));
                    assert(sv =~~= (KQueueModel {
                        prefix: pv,
                        items: kq_items(m0, pv).push((key@, value@)),
                    }));
                    assert(kqueues_view(self.kqueues@) =~= m0.kqueues.update(i as int, sv));
                    assert(self@ =~~= store_kq_set(
                        m0,
                        pv,
                        kq_items(m0, pv).push((key@, value@)),
                    ));
                }
            },
            None => {
                let mut items: Vec<(String, String)> = Vec::new();
                items.push((key.to_owned(), value.to_owned()));
                let s = KQueueSlot { prefix: Self::clone_opt_string(prefix), items };
                let ghost sv = s@;
                self.kqueues.push(s);
                proof {
                    assert(kq_items(m0, pv) =~~= Seq::<(Seq<char>, Seq<char>)>::empty());
                    assert(sv.items =~~= kq_items(m0, pv).push((key@, value@)));
                    assert(sv =~~= (KQueueModel {
                        prefix: pv,
                        items: kq_items(m0, pv).push((key@, value@)),
                    }));
                    assert(kqueues_view(self.kqueues@) =~= m0.kqueues.push(sv));
                    assert(self@ =~~= store_kq_set(
                        m0,
                        pv,
                        kq_items(m0, pv).push((key@, value@)),
                    ));
                }
            },
        }
    }

    /// Pop the head pair of the key-value-queue partition of `prefix`.
    pub(crate) fn kq_pop_head(&mut self, prefix: &Option<String>) -> (r: Option<
        (String, String),
    >)
        requires
            old(self).wf(),
        ensures
            final(self).wf(),
            final(self).spec_handle() == old(self).spec_handle(),
            kq_items(old(self)@, opt_string_view(*prefix)).len() == 0 ==> r is None && final(self)@ == old(self)@,
            kq_items(old(self)@, opt_string_view(*prefix)).len() > 0 ==> (r matches Some(kv)
                && kv.deep_view() == kq_items(old(self)@, opt_string_view(*prefix))[0]
                && final(self)@ == store_kq_set(
                old(self)@,
                opt_string_view(*prefix),
                kq_items(old(self)@, opt_string_view(*prefix)).drop_first(),
            )),
    {
        let ghost m0 = self@;
        let ghost pv = opt_string_view(*prefix);
        let i = match Self::find_kq(&self.kqueues, prefix) {
            Some(i) => i,
            None => {
                return None;
            },
        };
        proof {
            lemma_kq_index_of(m0.kqueues, pv, i as int);
        }
        if self.kqueues[i].items.len() == 0 {
            return None;
        }
        proof {
            lemma_kq_set(m0, pv, kq_items(m0, pv).drop_first());
        }
        let mut s = self.kqueues.remove(i);
        let kv = s.items.remove(0);
        let ghost sv = s@;
        self.kqueues.insert(i, s);
        proof {
            assert(sv.items =~~= kq_items(m0, pv).drop_first());
            assert(sv =~~= (KQueueModel {
                prefix: pv,
                items: kq_items(m0, pv).drop_first(),
            }));
            assert(kqueues_view(self.kqueues@) =~= m0.kqueues.update(i as int, sv));
            assert(self@ =~~= store_kq_set(m0, pv, kq_items(m0, pv).drop_first()));
        }
        Some(kv)
    }

    /// Pop the tail pair of the key-value-queue partition of `prefix`.
    pub(crate) fn kq_pop_tail(&mut self, prefix: &Option<String>) -> (r: Option<
        (String, String),
    >)
        requires
            old(self).wf(),
        ensures
            final(self).wf(),
            final(self).spec_handle() == old(self).spec_handle(),
            kq_items(old(self)@, opt_string_view(*prefix)).len() == 0 ==> r is None && final(self)@ == old(self)@,
            kq_items(old(self)@, opt_string_view(*prefix)).len() > 0 ==> (r matches Some(kv)
                && kv.deep_view() == kq_items(old(self)@, opt_string_view(*prefix)).last()
                && final(self)@ == store_kq_set(
                old(self)@,
                opt_string_view(*prefix),
                kq_items(old(self)@, opt_string_view(*prefix)).drop_last(),
            )),
    {
        let ghost m0 = self@;
        let ghost pv = opt_string_view(*prefix);
        let i = match Self::find_kq(&self.kqueues, prefix) {
            Some(i) => i,
            None => {
                return None;
            },
        };
        proof {
            lemma_kq_index_of(m0.kqueues, pv, i as int);
        }
        if self.kqueues[i].items.len() == 0 {
            return None;
        }
        proof {
            lemma_kq_set(m0, pv, kq_items(m0, pv).drop_last());
        }
        let mut s = self.kqueues.remove(i);
        let kv = match s.items.pop() {
            Some(kv) => kv,
            None => vstd::pervasive::unreached(),
        };
        let ghost sv = s@;
        self.kqueues.insert(i, s);
        proof {
            assert(sv.items =~~= kq_items(m0, pv).drop_last());
            assert(sv =~~= (KQueueModel {
                prefix: pv,
                items: kq_items(m0, pv).drop_last(),
            }));
            assert(kqueues_view(self.kqueues@) =~= m0.kqueues.update(i as int, sv));
            assert(self@ =~~= store_kq_set(m0, pv, kq_items(m0, pv).drop_last()));
        }
        Some(kv)
    }

    /// Empty the key-value-queue partition of `prefix`; a missing
    /// partition stays missing.
    pub(crate) fn kq_clear_part(&mut self, prefix: &Option<String>)
        requires
            old(self).wf(),
        ensures
            final(self).wf(),
            final(self).spec_handle() == old(self).spec_handle(),
            final(self)@ == store_kq_clear(old(self)@, opt_string_view(*prefix)),
    {
        let ghost m0 = self@;
        let ghost pv = opt_string_view(*prefix);
        match Self::find_kq(&self.kqueues, prefix) {
            Some(i) => {
                proof {
                    lemma_kq_index_of(m0.kqueues, pv, i as int);
                    lemma_kq_set(m0, pv, Seq::empty());
                }
                let mut s = self.kqueues.remove(i);
                s.items.clear();
                let ghost sv = s@;
                self.kqueues.insert(i, s);
                proof {
                    assert(sv.items =~~= Seq::<(Seq<char>, Seq<char>)>::empty());
                    assert(sv =~~= (KQueueModel { prefix: pv, items: Seq::empty() }));
                    assert(kqueues_view(self.kqueues@) =~= m0.kqueues.update(i as int, sv));
                    assert(self@ =~~= store_kq_set(m0, pv, Seq::empty()));
                }
            },
            None => {
                proof {
                    assert(store_kq_clear(m0, pv) == m0);
                }
            },
        }
    }

    /// Find the position of the attribute named `name`, if any.
    fn find_attr(attrs: &Vec<Attr>, name: &String) -> (r: Option<usize>)
        ensures
            match r {
                Some(j) => j < attrs@.len() && attrs@[j as int]@.name == name@,
                None => !has_attr(attrs_view(attrs@), name@),
            },
    {
        let n = attrs.len();
        let mut i: usize = 0;
        while i < n
            invariant
                n == attrs@.len(),
                forall|j: int| 0 <= j < i ==> attrs_view(attrs@)[j].name != name@,
            decreases n - i,
        {
            if attrs[i].name == *name {
                return Some(i);
            }
            i += 1;
        }
        proof {
            if has_attr(attrs_view(attrs@), name@) {
                let j = choose|j: int|
                    0 <= j < attrs_view(attrs@).len() && attrs_view(attrs@)[j].name == name@;
                assert(attrs_view(attrs@)[j].name != name@);
            }
        }
        None
    }

    /// Whether `p` is among the registered decryption passwords.
    fn contains_password(passwords: &Vec<String>, p: &String) -> (r: bool)
        ensures
            r == passwords.deep_view().contains(p@),
    {
        let n = passwords.len();
        let mut i: usize = 0;
        while i < n
            invariant
                n == passwords@.len(),
                forall|j: int| 0 <= j < i ==> passwords.deep_view()[j] != p@,
            decreases n - i,
        {
            if passwords[i] == *p {
                proof {
                    assert(passwords.deep_view()[i as int] == p@);
                }
                return true;
            }
            i += 1;
        }
        proof {
            if passwords.deep_view().contains(p@) {
                let j = choose|j: int|
                    0 <= j < passwords.deep_view().len() && passwords.deep_view()[j] == p@;
                assert(passwords.deep_view()[j] != p@);
            }
        }
        false
    }
}

} // verus!
