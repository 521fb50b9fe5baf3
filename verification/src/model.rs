//! Mathematical model of the namespace.
//!
//! The namespace is modelled as a finite sequence of entries, one per key.
//! Each entry carries its value, an optional encryption password, an
//! optional expiration, its attribute list and its ordered subkey-name list.
//! The store-wide state adds the registered decryption passwords, the
//! default encryption password, the common-attribute flags and the state of
//! the transaction journal. All store operations are specified as functions
//! on this model.

use vstd::prelude::*;

use crate::errors::K2hError;

verus! {

/// One attribute attached to a key: a name and a value.
#[verifier::ext_equal]
pub ghost struct AttrModel {
    pub name: Seq<char>,
    pub value: Seq<char>,
}

/// One stored entry of the namespace.
#[verifier::ext_equal]
pub ghost struct EntryModel {
    /// The key; never empty.
    pub key: Seq<char>,
    /// The stored value; never empty.
    pub value: Seq<char>,
    /// The password the value was encrypted with, if any.
    pub password: Option<Seq<char>>,
    /// The expiration duration recorded for the entry, if any. The model
    /// keeps the duration as written; enforcing it needs a clock, which
    /// belongs to the storage engine below this model.
    pub expire: Option<u64>,
    /// Attributes attached to the key, names unique.
    pub attrs: Seq<AttrModel>,
    /// Ordered subkey names attached to the key, unique, in insertion order.
    pub subkeys: Seq<Seq<char>>,
}

/// One value-queue partition of the namespace: the prefix that scopes it
/// and its pending elements, head first.
#[verifier::ext_equal]
pub ghost struct VQueueModel {
    pub prefix: Option<Seq<char>>,
    pub items: Seq<Seq<char>>,
}

/// One key-value-queue partition of the namespace: the prefix that scopes
/// it and its pending key/value pairs, head first.
#[verifier::ext_equal]
pub ghost struct KQueueModel {
    pub prefix: Option<Seq<char>>,
    pub items: Seq<(Seq<char>, Seq<char>)>,
}

/// The whole state of one open namespace.
#[verifier::ext_equal]
pub ghost struct StoreModel {
    /// The entries, keys unique, in insertion order.
    pub entries: Seq<EntryModel>,
    /// Encrypt-by-default is switched on.
    pub enc_enabled: bool,
    /// The default encryption password, if one was registered.
    pub default_password: Option<Seq<char>>,
    /// Every password registered for decryption.
    pub dec_passwords: Seq<Seq<char>>,
    /// The history common attribute is switched on.
    pub history_enabled: bool,
    /// The modification-time common attribute is switched on.
    pub mtime_enabled: bool,
    /// The journal file of the running transaction, if one is active.
    pub tx_file: Option<Seq<char>>,
    /// The value-queue partitions, prefixes unique. Every queue bound to
    /// one prefix of the namespace reads and writes the one partition of
    /// that prefix.
    pub vqueues: Seq<VQueueModel>,
    /// The key-value-queue partitions, prefixes unique. The two queue
    /// engines keep separate partition families.
    pub kqueues: Seq<KQueueModel>,
}

// ---------------------------------------------------------------------------
// Lookup
// ---------------------------------------------------------------------------

/// No two entries hold the same key.
pub open spec fn keys_unique(entries: Seq<EntryModel>) -> bool {
    forall|i: int, j: int| 0 <= i < j < entries.len() ==> entries[i].key != entries[j].key
}

/// Some entry holds the key `k`.
pub open spec fn has_key(entries: Seq<EntryModel>, k: Seq<char>) -> bool {
    exists|i: int| 0 <= i < entries.len() && entries[i].key == k
}

/// The index of the entry holding `k`; meaningful only when `has_key`.
pub open spec fn key_index(entries: Seq<EntryModel>, k: Seq<char>) -> int {
    choose|i: int| 0 <= i < entries.len() && entries[i].key == k
}

/// The entry holding `k`; meaningful only when `has_key`.
pub open spec fn entry_at(entries: Seq<EntryModel>, k: Seq<char>) -> EntryModel {
    entries[key_index(entries, k)]
}

/// The index of `n` in a list of names; meaningful only when present.
pub open spec fn name_index(names: Seq<Seq<char>>, n: Seq<char>) -> int {
    choose|j: int| 0 <= j < names.len() && names[j] == n
}

/// Some attribute of the list carries the name `n`.
pub open spec fn has_attr(attrs: Seq<AttrModel>, n: Seq<char>) -> bool {
    exists|i: int| 0 <= i < attrs.len() && attrs[i].name == n
}

/// The index of the attribute named `n`; meaningful only when `has_attr`.
pub open spec fn attr_index(attrs: Seq<AttrModel>, n: Seq<char>) -> int {
    choose|i: int| 0 <= i < attrs.len() && attrs[i].name == n
}

// ---------------------------------------------------------------------------
// Well-formedness
// ---------------------------------------------------------------------------

/// Attribute lists hold unique, non-empty names and non-empty values.
pub open spec fn attrs_wf(attrs: Seq<AttrModel>) -> bool {
    &&& forall|i: int, j: int|
        0 <= i < j < attrs.len() ==> attrs[i].name != attrs[j].name
    &&& forall|i: int|
        0 <= i < attrs.len() ==> attrs[i].name.len() > 0 && attrs[i].value.len() > 0
}

/// Subkey-name lists hold unique, non-empty names.
pub open spec fn subkeys_wf(subkeys: Seq<Seq<char>>) -> bool {
    &&& forall|i: int, j: int| 0 <= i < j < subkeys.len() ==> subkeys[i] != subkeys[j]
    &&& forall|i: int| 0 <= i < subkeys.len() ==> subkeys[i].len() > 0
}

/// One entry is well formed.
pub open spec fn entry_wf(e: EntryModel) -> bool {
    &&& e.key.len() > 0
    &&& e.value.len() > 0
    &&& attrs_wf(e.attrs)
    &&& subkeys_wf(e.subkeys)
}

/// The invariant of the whole model: keys unique, every entry well formed,
/// registered passwords non-empty, and the default encryption password, if
/// any, registered for decryption as well.
pub open spec fn store_inv(m: StoreModel) -> bool {
    &&& keys_unique(m.entries)
    &&& forall|i: int| 0 <= i < m.entries.len() ==> entry_wf(#[trigger] m.entries[i])
    &&& forall|i: int| 0 <= i < m.dec_passwords.len() ==> m.dec_passwords[i].len() > 0
    &&& (m.default_password is Some ==> m.default_password->0.len() > 0
        && m.dec_passwords.contains(m.default_password->0))
    &&& (m.tx_file is Some ==> m.tx_file->0.len() > 0)
    &&& forall|i: int, j: int|
        0 <= i < j < m.vqueues.len() ==> m.vqueues[i].prefix != m.vqueues[j].prefix
    &&& forall|i: int, j: int|
        0 <= i < j < m.kqueues.len() ==> m.kqueues[i].prefix != m.kqueues[j].prefix
}

/// The model of a namespace as `open_mem` and `open` hand it out.
pub open spec fn store_fresh() -> StoreModel {
    StoreModel {
        entries: Seq::empty(),
        enc_enabled: false,
        default_password: None,
        dec_passwords: Seq::empty(),
        history_enabled: false,
        mtime_enabled: false,
        tx_file: None,
        vqueues: Seq::empty(),
        kqueues: Seq::empty(),
    }
}

// ---------------------------------------------------------------------------
// Reading
// ---------------------------------------------------------------------------

/// The password a write stores with its entry: the explicit one where given,
/// else the default password where encrypt-by-default is on.
pub open spec fn effective_password(m: StoreModel, pass: Option<Seq<char>>) -> Option<
    Seq<char>,
> {
    if pass is Some {
        pass
    } else if m.enc_enabled {
        m.default_password
    } else {
        None
    }
}

/// An entry can be read with the given password: it is plain, or the
/// password matches, or its password is registered for decryption.
pub open spec fn readable(
    e: EntryModel,
    given: Option<Seq<char>>,
    dec: Seq<Seq<char>>,
) -> bool {
    match e.password {
        None => true,
        Some(p) => given == Some(p) || dec.contains(p),
    }
}

/// What a read of `k` with password `given` yields: the value where the key
/// is present and readable, and nothing otherwise. A missing key and an
/// unreadable entry are observably the same.
pub open spec fn store_read(
    m: StoreModel,
    k: Seq<char>,
    given: Option<Seq<char>>,
) -> Option<Seq<char>> {
    if has_key(m.entries, k) && readable(entry_at(m.entries, k), given, m.dec_passwords) {
        Some(entry_at(m.entries, k).value)
    } else {
        None
    }
}

/// The subkey names attached to `k`, empty where `k` is absent.
pub open spec fn subkeys_of(m: StoreModel, k: Seq<char>) -> Seq<Seq<char>> {
    if has_key(m.entries, k) {
        entry_at(m.entries, k).subkeys
    } else {
        Seq::empty()
    }
}

/// The attributes attached to `k`, empty where `k` is absent.
pub open spec fn attrs_of(m: StoreModel, k: Seq<char>) -> Seq<AttrModel> {
    if has_key(m.entries, k) {
        entry_at(m.entries, k).attrs
    } else {
        Seq::empty()
    }
}

/// The keys of the namespace, in storage order.
pub open spec fn store_keys(m: StoreModel) -> Seq<Seq<char>> {
    m.entries.map_values(|e: EntryModel| e.key)
}

/// An attribute list as name/value pairs.
pub open spec fn attr_pairs(s: Seq<AttrModel>) -> Seq<(Seq<char>, Seq<char>)> {
    s.map_values(|a: AttrModel| (a.name, a.value))
}

/// Some value-queue partition carries the prefix `pfx`.
pub open spec fn vq_has(qs: Seq<VQueueModel>, pfx: Option<Seq<char>>) -> bool {
    exists|i: int| 0 <= i < qs.len() && qs[i].prefix == pfx
}

/// The index of the value-queue partition of `pfx`; meaningful only when
/// `vq_has`.
pub open spec fn vq_index(qs: Seq<VQueueModel>, pfx: Option<Seq<char>>) -> int {
    choose|i: int| 0 <= i < qs.len() && qs[i].prefix == pfx
}

/// The pending elements of the value-queue partition of `pfx`, empty where
/// no partition of that prefix exists yet. Every queue bound to the
/// namespace under `pfx` observes this one sequence.
pub open spec fn vq_items(m: StoreModel, pfx: Option<Seq<char>>) -> Seq<Seq<char>> {
    if vq_has(m.vqueues, pfx) {
        m.vqueues[vq_index(m.vqueues, pfx)].items
    } else {
        Seq::empty()
    }
}

/// Some key-value-queue partition carries the prefix `pfx`.
pub open spec fn kq_has(qs: Seq<KQueueModel>, pfx: Option<Seq<char>>) -> bool {
    exists|i: int| 0 <= i < qs.len() && qs[i].prefix == pfx
}

/// The index of the key-value-queue partition of `pfx`; meaningful only
/// when `kq_has`.
pub open spec fn kq_index(qs: Seq<KQueueModel>, pfx: Option<Seq<char>>) -> int {
    choose|i: int| 0 <= i < qs.len() && qs[i].prefix == pfx
}

/// The pending pairs of the key-value-queue partition of `pfx`, empty
/// where no partition of that prefix exists yet. Every key-value queue
/// bound to the namespace under `pfx` observes this one sequence.
pub open spec fn kq_items(m: StoreModel, pfx: Option<Seq<char>>) -> Seq<
    (Seq<char>, Seq<char>),
> {
    if kq_has(m.kqueues, pfx) {
        m.kqueues[kq_index(m.kqueues, pfx)].items
    } else {
        Seq::empty()
    }
}

// ---------------------------------------------------------------------------
// Writing
// ---------------------------------------------------------------------------

/// Writing `k := v`: an existing entry keeps its attributes and subkeys and
/// takes the new value, password and expiration; a new entry is appended.
pub open spec fn store_set(
    m: StoreModel,
    k: Seq<char>,
    v: Seq<char>,
    pass: Option<Seq<char>>,
    expire: Option<u64>,
) -> StoreModel {
    let p = effective_password(m, pass);
    if has_key(m.entries, k) {
        let i = key_index(m.entries, k);
        let e0 = m.entries[i];
        StoreModel {
            entries: m.entries.update(
                i,
                EntryModel { value: v, password: p, expire, ..e0 },
            ),
            ..m
        }
    } else {
        StoreModel {
            entries: m.entries.push(
                EntryModel {
                    key: k,
                    value: v,
                    password: p,
                    expire,
                    attrs: Seq::empty(),
                    subkeys: Seq::empty(),
                },
            ),
            ..m
        }
    }
}

/// Removing the entry of `k` from the sequence alone.
pub open spec fn store_remove_entry(m: StoreModel, k: Seq<char>) -> StoreModel {
    if has_key(m.entries, k) {
        StoreModel { entries: m.entries.remove(key_index(m.entries, k)), ..m }
    } else {
        m
    }
}

/// Removing `sk` from the subkey list of `k`'s entry, leaving `sk`'s own
/// entry alone.
pub open spec fn store_unlink_subkey(m: StoreModel, k: Seq<char>, sk: Seq<char>) -> StoreModel {
    if has_key(m.entries, k) {
        let i = key_index(m.entries, k);
        let e0 = m.entries[i];
        let sks = e0.subkeys;
        if sks.contains(sk) {
            StoreModel {
                entries: m.entries.update(
                    i,
                    EntryModel { subkeys: sks.remove(name_index(sks, sk)), ..e0 },
                ),
                ..m
            }
        } else {
            m
        }
    } else {
        m
    }
}

/// Removing one subkey `sk` of `k`: the relation entry and `sk`'s own entry
/// go together.
pub open spec fn store_remove_subkey(m: StoreModel, k: Seq<char>, sk: Seq<char>) -> StoreModel {
    store_remove_entry(store_unlink_subkey(m, k, sk), sk)
}

/// Adding the subkey `sk := sv` under `k`: `sk` is written as a full entry,
/// and appended to `k`'s subkey list where not yet present.
pub open spec fn store_add_subkey(
    m: StoreModel,
    k: Seq<char>,
    sk: Seq<char>,
    sv: Seq<char>,
    pass: Option<Seq<char>>,
    expire: Option<u64>,
) -> StoreModel {
    let m1 = store_set(m, sk, sv, pass, expire);
    let i = key_index(m1.entries, k);
    let e0 = m1.entries[i];
    if e0.subkeys.contains(sk) {
        m1
    } else {
        StoreModel {
            entries: m1.entries.update(i, EntryModel { subkeys: e0.subkeys.push(sk), ..e0 }),
            ..m1
        }
    }
}

/// Attaching the attribute `n := v` to `k`: an attribute of that name is
/// overwritten, a new one appended.
pub open spec fn store_set_attribute(
    m: StoreModel,
    k: Seq<char>,
    n: Seq<char>,
    v: Seq<char>,
) -> StoreModel {
    let i = key_index(m.entries, k);
    let e0 = m.entries[i];
    let a = AttrModel { name: n, value: v };
    let attrs = if has_attr(e0.attrs, n) {
        e0.attrs.update(attr_index(e0.attrs, n), a)
    } else {
        e0.attrs.push(a)
    };
    StoreModel { entries: m.entries.update(i, EntryModel { attrs, ..e0 }), ..m }
}

/// Renaming `ok` to `nk`: the entry keeps everything but its key; an entry
/// already holding `nk` is overwritten (removed first). Renaming a key to
/// itself changes nothing.
pub open spec fn store_rename(m: StoreModel, ok: Seq<char>, nk: Seq<char>) -> StoreModel {
    if ok == nk {
        m
    } else {
        let m1 = store_remove_entry(m, nk);
        let i = key_index(m1.entries, ok);
        let e0 = m1.entries[i];
        StoreModel { entries: m1.entries.update(i, EntryModel { key: nk, ..e0 }), ..m1 }
    }
}

/// Removing the entries of all the keys of `ks`, front to back. Keys with
/// no entry are passed over.
pub open spec fn remove_keys(m: StoreModel, ks: Seq<Seq<char>>) -> StoreModel
    decreases ks.len(),
{
    if ks.len() == 0 {
        m
    } else {
        remove_keys(store_remove_entry(m, ks[0]), ks.skip(1))
    }
}

/// Removing the entry of `k` together with the entries of all its subkeys.
pub open spec fn store_remove_all(m: StoreModel, k: Seq<char>) -> StoreModel {
    remove_keys(store_remove_entry(m, k), subkeys_of(m, k))
}

/// Removing the named subkeys of `k`, front to back, stopping at the first
/// name that is not attached to `k`; removals made up to that point stay.
/// The second component tells whether every name was removed.
pub open spec fn store_remove_subkeys(
    m: StoreModel,
    k: Seq<char>,
    names: Seq<Seq<char>>,
) -> (StoreModel, bool)
    decreases names.len(),
{
    if names.len() == 0 {
        (m, true)
    } else if subkeys_of(m, k).contains(names[0]) {
        store_remove_subkeys(store_remove_subkey(m, k, names[0]), k, names.skip(1))
    } else {
        (m, false)
    }
}

/// Writing the subkey pairs under `k`, front to back, stopping at the first
/// pair with an empty name or value, or as soon as `k` itself is absent;
/// writes made up to that point stay. The second component is the error the
/// operation stops with, if any.
pub open spec fn store_set_subkeys(
    m: StoreModel,
    k: Seq<char>,
    pairs: Seq<(Seq<char>, Seq<char>)>,
    pass: Option<Seq<char>>,
    expire: Option<u64>,
) -> (StoreModel, Option<K2hError>)
    decreases pairs.len(),
{
    if pairs.len() == 0 {
        (m, None)
    } else if pairs[0].0.len() == 0 || pairs[0].1.len() == 0 {
        (m, Some(K2hError::EmptyField))
    } else if !has_key(m.entries, k) {
        (m, Some(K2hError::SubkeyWriteFailed))
    } else {
        store_set_subkeys(
            store_add_subkey(m, k, pairs[0].0, pairs[0].1, pass, expire),
            k,
            pairs.skip(1),
            pass,
            expire,
        )
    }
}

/// Setting the value-queue partition of `pfx` to `items`: an existing
/// partition is replaced, a missing one created.
pub open spec fn store_vq_set(
    m: StoreModel,
    pfx: Option<Seq<char>>,
    items: Seq<Seq<char>>,
) -> StoreModel {
    let slot = VQueueModel { prefix: pfx, items };
    if vq_has(m.vqueues, pfx) {
        StoreModel { vqueues: m.vqueues.update(vq_index(m.vqueues, pfx), slot), ..m }
    } else {
        StoreModel { vqueues: m.vqueues.push(slot), ..m }
    }
}

/// Emptying the value-queue partition of `pfx`; a missing partition stays
/// missing.
pub open spec fn store_vq_clear(m: StoreModel, pfx: Option<Seq<char>>) -> StoreModel {
    if vq_has(m.vqueues, pfx) {
        store_vq_set(m, pfx, Seq::empty())
    } else {
        m
    }
}

/// Setting the key-value-queue partition of `pfx` to `items`: an existing
/// partition is replaced, a missing one created.
pub open spec fn store_kq_set(
    m: StoreModel,
    pfx: Option<Seq<char>>,
    items: Seq<(Seq<char>, Seq<char>)>,
) -> StoreModel {
    let slot = KQueueModel { prefix: pfx, items };
    if kq_has(m.kqueues, pfx) {
        StoreModel { kqueues: m.kqueues.update(kq_index(m.kqueues, pfx), slot), ..m }
    } else {
        StoreModel { kqueues: m.kqueues.push(slot), ..m }
    }
}

/// Emptying the key-value-queue partition of `pfx`; a missing partition
/// stays missing.
pub open spec fn store_kq_clear(m: StoreModel, pfx: Option<Seq<char>>) -> StoreModel {
    if kq_has(m.kqueues, pfx) {
        store_kq_set(m, pfx, Seq::empty())
    } else {
        m
    }
}

// ---------------------------------------------------------------------------
// Lemmas
// ---------------------------------------------------------------------------

/// With unique prefixes, the value-queue partition found for a prefix is
/// the only one.
pub proof fn lemma_vq_index_of(qs: Seq<VQueueModel>, pfx: Option<Seq<char>>, i: int)
    requires
        forall|p: int, q: int| 0 <= p < q < qs.len() ==> qs[p].prefix != qs[q].prefix,
        0 <= i < qs.len(),
        qs[i].prefix == pfx,
    ensures
        vq_has(qs, pfx),
        vq_index(qs, pfx) == i,
{
    assert(vq_has(qs, pfx));
    let j = vq_index(qs, pfx);
    if j < i {
        assert(qs[j].prefix != qs[i].prefix);
    } else if j > i {
        assert(qs[i].prefix != qs[j].prefix);
    }
}

/// With unique prefixes, the key-value-queue partition found for a prefix
/// is the only one.
pub proof fn lemma_kq_index_of(qs: Seq<KQueueModel>, pfx: Option<Seq<char>>, i: int)
    requires
        forall|p: int, q: int| 0 <= p < q < qs.len() ==> qs[p].prefix != qs[q].prefix,
        0 <= i < qs.len(),
        qs[i].prefix == pfx,
    ensures
        kq_has(qs, pfx),
        kq_index(qs, pfx) == i,
{
    assert(kq_has(qs, pfx));
    let j = kq_index(qs, pfx);
    if j < i {
        assert(qs[j].prefix != qs[i].prefix);
    } else if j > i {
        assert(qs[i].prefix != qs[j].prefix);
    }
}

/// The sharing law of the value-queue engine. Writing the partition of one
/// prefix keeps the model well formed, is read back in full by every queue
/// bound to that prefix — however many queue values are bound to it — and
/// leaves every other prefix's partition and all non-queue state of the
/// namespace untouched.
pub proof fn lemma_vq_set(m: StoreModel, pfx: Option<Seq<char>>, items: Seq<Seq<char>>)
    requires
        store_inv(m),
    ensures
        store_inv(store_vq_set(m, pfx, items)),
        vq_items(store_vq_set(m, pfx, items), pfx) == items,
        forall|p2: Option<Seq<char>>|
            p2 != pfx ==> vq_items(store_vq_set(m, pfx, items), p2) == vq_items(m, p2),
        store_vq_set(m, pfx, items) == (StoreModel {
            vqueues: store_vq_set(m, pfx, items).vqueues,
            ..m
        }),
{
    let m1 = store_vq_set(m, pfx, items);
    let qs1 = m1.vqueues;
    if vq_has(m.vqueues, pfx) {
        let i = vq_index(m.vqueues, pfx);
        assert(0 <= i < m.vqueues.len() && m.vqueues[i].prefix == pfx);
        assert(forall|j: int| 0 <= j < qs1.len() ==> qs1[j].prefix == m.vqueues[j].prefix);
        lemma_vq_index_of(qs1, pfx, i);
        assert forall|p2: Option<Seq<char>>| p2 != pfx implies vq_items(m1, p2) == vq_items(
            m,
            p2,
        ) by {
            if vq_has(m.vqueues, p2) {
                let j = vq_index(m.vqueues, p2);
                assert(j != i);
                assert(qs1[j] == m.vqueues[j]);
                lemma_vq_index_of(qs1, p2, j);
            } else {
                if vq_has(qs1, p2) {
                    let j = vq_index(qs1, p2);
                    assert(m.vqueues[j].prefix == p2);
                }
            }
        }
    } else {
        let n = m.vqueues.len() as int;
        assert(forall|j: int| 0 <= j < n ==> qs1[j] == m.vqueues[j]);
        assert(forall|j: int| 0 <= j < n ==> m.vqueues[j].prefix != pfx);
        assert(qs1[n].prefix == pfx);
        assert forall|p: int, q: int| 0 <= p < q < qs1.len() implies qs1[p].prefix
            != qs1[q].prefix by {
            if q < n {
                assert(qs1[p] == m.vqueues[p] && qs1[q] == m.vqueues[q]);
            }
        }
        lemma_vq_index_of(qs1, pfx, n);
        assert forall|p2: Option<Seq<char>>| p2 != pfx implies vq_items(m1, p2) == vq_items(
            m,
            p2,
        ) by {
            if vq_has(m.vqueues, p2) {
                let j = vq_index(m.vqueues, p2);
                lemma_vq_index_of(qs1, p2, j);
            } else {
                if vq_has(qs1, p2) {
                    let j = vq_index(qs1, p2);
                    assert(j != n);
                    assert(m.vqueues[j].prefix == p2);
                }
            }
        }
    }
}

/// Two writes to one prefix's value-queue partition compose: the later
/// write alone decides it.
pub proof fn lemma_vq_set_twice(
    m: StoreModel,
    pfx: Option<Seq<char>>,
    a: Seq<Seq<char>>,
    b: Seq<Seq<char>>,
)
    requires
        store_inv(m),
    ensures
        store_vq_set(store_vq_set(m, pfx, a), pfx, b) == store_vq_set(m, pfx, b),
{
    let m1 = store_vq_set(m, pfx, a);
    lemma_vq_set(m, pfx, a);
    if vq_has(m.vqueues, pfx) {
        let i = vq_index(m.vqueues, pfx);
        assert(m1.vqueues[i].prefix == pfx);
        lemma_vq_index_of(m1.vqueues, pfx, i);
        assert(store_vq_set(m1, pfx, b).vqueues =~~= store_vq_set(m, pfx, b).vqueues);
        assert(store_vq_set(m1, pfx, b) =~~= store_vq_set(m, pfx, b));
    } else {
        let n = m.vqueues.len() as int;
        assert(m1.vqueues[n].prefix == pfx);
        lemma_vq_index_of(m1.vqueues, pfx, n);
        assert(store_vq_set(m1, pfx, b).vqueues =~~= store_vq_set(m, pfx, b).vqueues);
        assert(store_vq_set(m1, pfx, b) =~~= store_vq_set(m, pfx, b));
    }
}

/// The sharing law of the key-value-queue engine: as for the value queue,
/// a write to one prefix's partition is read back in full by every
/// key-value queue bound to that prefix, and touches nothing else.
pub proof fn lemma_kq_set(
    m: StoreModel,
    pfx: Option<Seq<char>>,
    items: Seq<(Seq<char>, Seq<char>)>,
)
    requires
        store_inv(m),
    ensures
        store_inv(store_kq_set(m, pfx, items)),
        kq_items(store_kq_set(m, pfx, items), pfx) == items,
        forall|p2: Option<Seq<char>>|
            p2 != pfx ==> kq_items(store_kq_set(m, pfx, items), p2) == kq_items(m, p2),
        store_kq_set(m, pfx, items) == (StoreModel {
            kqueues: store_kq_set(m, pfx, items).kqueues,
            ..m
        }),
{
    let m1 = store_kq_set(m, pfx, items);
    let qs1 = m1.kqueues;
    if kq_has(m.kqueues, pfx) {
        let i = kq_index(m.kqueues, pfx);
        assert(0 <= i < m.kqueues.len() && m.kqueues[i].prefix == pfx);
        assert(forall|j: int| 0 <= j < qs1.len() ==> qs1[j].prefix == m.kqueues[j].prefix);
        lemma_kq_index_of(qs1, pfx, i);
        assert forall|p2: Option<Seq<char>>| p2 != pfx implies kq_items(m1, p2) == kq_items(
            m,
            p2,
        ) by {
            if kq_has(m.kqueues, p2) {
                let j = kq_index(m.kqueues, p2);
                assert(j != i);
                assert(qs1[j] == m.kqueues[j]);
                lemma_kq_index_of(qs1, p2, j);
            } else {
                if kq_has(qs1, p2) {
                    let j = kq_index(qs1, p2);
                    assert(m.kqueues[j].prefix == p2);
                }
            }
        }
    } else {
        let n = m.kqueues.len() as int;
        assert(forall|j: int| 0 <= j < n ==> qs1[j] == m.kqueues[j]);
        assert(forall|j: int| 0 <= j < n ==> m.kqueues[j].prefix != pfx);
        assert(qs1[n].prefix == pfx);
        assert forall|p: int, q: int| 0 <= p < q < qs1.len() implies qs1[p].prefix
            != qs1[q].prefix by {
            if q < n {
                assert(qs1[p] == m.kqueues[p] && qs1[q] == m.kqueues[q]);
            }
        }
        lemma_kq_index_of(qs1, pfx, n);
        assert forall|p2: Option<Seq<char>>| p2 != pfx implies kq_items(m1, p2) == kq_items(
            m,
            p2,
        ) by {
            if kq_has(m.kqueues, p2) {
                let j = kq_index(m.kqueues, p2);
                lemma_kq_index_of(qs1, p2, j);
            } else {
                if kq_has(qs1, p2) {
                    let j = kq_index(qs1, p2);
                    assert(j != n);
                    assert(m.kqueues[j].prefix == p2);
                }
            }
        }
    }
}

/// Two writes to one prefix's key-value-queue partition compose: the later
/// write alone decides it.
pub proof fn lemma_kq_set_twice(
    m: StoreModel,
    pfx: Option<Seq<char>>,
    a: Seq<(Seq<char>, Seq<char>)>,
    b: Seq<(Seq<char>, Seq<char>)>,
)
    requires
        store_inv(m),
    ensures
        store_kq_set(store_kq_set(m, pfx, a), pfx, b) == store_kq_set(m, pfx, b),
{
    let m1 = store_kq_set(m, pfx, a);
    lemma_kq_set(m, pfx, a);
    if kq_has(m.kqueues, pfx) {
        let i = kq_index(m.kqueues, pfx);
        assert(m1.kqueues[i].prefix == pfx);
        lemma_kq_index_of(m1.kqueues, pfx, i);
        assert(store_kq_set(m1, pfx, b).kqueues =~~= store_kq_set(m, pfx, b).kqueues);
        assert(store_kq_set(m1, pfx, b) =~~= store_kq_set(m, pfx, b));
    } else {
        let n = m.kqueues.len() as int;
        assert(m1.kqueues[n].prefix == pfx);
        lemma_kq_index_of(m1.kqueues, pfx, n);
        assert(store_kq_set(m1, pfx, b).kqueues =~~= store_kq_set(m, pfx, b).kqueues);
        assert(store_kq_set(m1, pfx, b) =~~= store_kq_set(m, pfx, b));
    }
}

/// With unique keys, the index found for a key is the only one.
pub proof fn lemma_key_index_of(entries: Seq<EntryModel>, k: Seq<char>, i: int)
    requires
        keys_unique(entries),
        0 <= i < entries.len(),
        entries[i].key == k,
    ensures
        has_key(entries, k),
        key_index(entries, k) == i,
        entry_at(entries, k) == entries[i],
{
    assert(has_key(entries, k));
    let j = key_index(entries, k);
    if j < i {
        assert(entries[j].key != entries[i].key);
    } else if j > i {
        assert(entries[i].key != entries[j].key);
    }
}

/// Writing a non-empty key and value keeps the model well formed.
pub proof fn lemma_set_preserves_inv(
    m: StoreModel,
    k: Seq<char>,
    v: Seq<char>,
    pass: Option<Seq<char>>,
    expire: Option<u64>,
)
    requires
        store_inv(m),
        k.len() > 0,
        v.len() > 0,
    ensures
        store_inv(store_set(m, k, v, pass, expire)),
{
    let m1 = store_set(m, k, v, pass, expire);
    if has_key(m.entries, k) {
        let i = key_index(m.entries, k);
        assert(entry_wf(m.entries[i]));
        assert(forall|j: int|
            0 <= j < m1.entries.len() && j != i ==> m1.entries[j] == m.entries[j]);
        assert(m1.entries[i].key == m.entries[i].key);
    } else {
        let n = m.entries.len() as int;
        assert(forall|j: int| 0 <= j < n ==> m1.entries[j] == m.entries[j]);
        assert(forall|j: int| 0 <= j < n ==> m.entries[j].key != k);
        assert(entry_wf(m1.entries[n]));
    }
}

/// Removing an entry keeps the model well formed.
pub proof fn lemma_remove_entry_preserves_inv(m: StoreModel, k: Seq<char>)
    requires
        store_inv(m),
    ensures
        store_inv(store_remove_entry(m, k)),
{
    if has_key(m.entries, k) {
        let i = key_index(m.entries, k);
        m.entries.remove_ensures(i);
        let es = store_remove_entry(m, k).entries;
        assert forall|p: int, q: int| 0 <= p < q < es.len() implies es[p].key != es[q].key by {
            if q < i {
                assert(es[p] == m.entries[p] && es[q] == m.entries[q]);
            } else if p < i {
                assert(es[p] == m.entries[p] && es[q] == m.entries[q + 1]);
            } else {
                assert(es[p] == m.entries[p + 1] && es[q] == m.entries[q + 1]);
            }
        }
        assert forall|p: int| 0 <= p < es.len() implies entry_wf(#[trigger] es[p]) by {
            if p < i {
                assert(es[p] == m.entries[p]);
            } else {
                assert(es[p] == m.entries[p + 1]);
            }
        }
    }
}

/// After removing the entry of `nk`, no entry holds `nk`, and every other
/// key keeps its entry.
pub proof fn lemma_remove_entry_effect(m: StoreModel, nk: Seq<char>, ok: Seq<char>)
    requires
        store_inv(m),
        ok != nk,
    ensures
        !has_key(store_remove_entry(m, nk).entries, nk),
        has_key(m.entries, ok) ==> has_key(store_remove_entry(m, nk).entries, ok)
            && entry_at(store_remove_entry(m, nk).entries, ok) == entry_at(m.entries, ok),
{
    let m1 = store_remove_entry(m, nk);
    lemma_remove_entry_preserves_inv(m, nk);
    if has_key(m.entries, nk) {
        let i = key_index(m.entries, nk);
        m.entries.remove_ensures(i);
        assert forall|j: int| 0 <= j < m1.entries.len() implies m1.entries[j].key != nk by {
            if j < i {
                assert(m1.entries[j] == m.entries[j]);
            } else {
                assert(m1.entries[j] == m.entries[j + 1]);
            }
        }
        if has_key(m.entries, ok) {
            let io = key_index(m.entries, ok);
            assert(io != i);
            if io < i {
                assert(m1.entries[io] == m.entries[io]);
                lemma_key_index_of(m1.entries, ok, io);
            } else {
                assert(m1.entries[io - 1] == m.entries[io]);
                lemma_key_index_of(m1.entries, ok, io - 1);
            }
            lemma_key_index_of(m.entries, ok, io);
        }
    } else {
        if has_key(m1.entries, nk) {
            let j = key_index(m1.entries, nk);
            assert(m.entries[j].key == nk);
        }
    }
}

/// Renaming a present key keeps the model well formed.
pub proof fn lemma_rename_preserves_inv(m: StoreModel, ok: Seq<char>, nk: Seq<char>)
    requires
        store_inv(m),
        has_key(m.entries, ok),
        nk.len() > 0,
    ensures
        store_inv(store_rename(m, ok, nk)),
{
    if ok != nk {
        let m1 = store_remove_entry(m, nk);
        lemma_remove_entry_preserves_inv(m, nk);
        lemma_remove_entry_effect(m, nk, ok);
        let i = key_index(m1.entries, ok);
        let m2 = store_rename(m, ok, nk);
        assert forall|p: int, q: int| 0 <= p < q < m2.entries.len() implies m2.entries[p].key
            != m2.entries[q].key by {
            if p != i && q != i {
                assert(m2.entries[p] == m1.entries[p] && m2.entries[q] == m1.entries[q]);
            } else if p == i {
                assert(m2.entries[q] == m1.entries[q]);
                assert(m1.entries[q].key != nk);
            } else {
                assert(m2.entries[p] == m1.entries[p]);
                assert(m1.entries[p].key != nk);
            }
        }
        assert forall|p: int| 0 <= p < m2.entries.len() implies entry_wf(
            #[trigger] m2.entries[p],
        ) by {
            if p != i {
                assert(m2.entries[p] == m1.entries[p]);
            }
        }
    }
}

/// With unique names, the index found for a name is the only one.
pub proof fn lemma_name_index_of(names: Seq<Seq<char>>, n: Seq<char>, j: int)
    requires
        forall|p: int, q: int| 0 <= p < q < names.len() ==> names[p] != names[q],
        0 <= j < names.len(),
        names[j] == n,
    ensures
        names.contains(n),
        name_index(names, n) == j,
{
    assert(names.contains(n));
    let p = name_index(names, n);
    if p < j {
        assert(names[p] != names[j]);
    } else if p > j {
        assert(names[j] != names[p]);
    }
}

/// With unique attribute names, the index found for a name is the only one.
pub proof fn lemma_attr_index_of(attrs: Seq<AttrModel>, n: Seq<char>, j: int)
    requires
        attrs_wf(attrs),
        0 <= j < attrs.len(),
        attrs[j].name == n,
    ensures
        has_attr(attrs, n),
        attr_index(attrs, n) == j,
{
    assert(has_attr(attrs, n));
    let p = attr_index(attrs, n);
    if p < j {
        assert(attrs[p].name != attrs[j].name);
    } else if p > j {
        assert(attrs[j].name != attrs[p].name);
    }
}

/// Writing `kset` leaves every other key's presence and entry alone, and
/// makes `kset` present.
pub proof fn lemma_set_has_key(
    m: StoreModel,
    kset: Seq<char>,
    v: Seq<char>,
    pass: Option<Seq<char>>,
    expire: Option<u64>,
    q: Seq<char>,
)
    requires
        store_inv(m),
    ensures
        has_key(store_set(m, kset, v, pass, expire).entries, q) <==> (has_key(m.entries, q)
            || q == kset),
        has_key(m.entries, q) && q != kset ==> entry_at(
            store_set(m, kset, v, pass, expire).entries,
            q,
        ) == entry_at(m.entries, q),
{
    let es1 = store_set(m, kset, v, pass, expire).entries;
    lemma_set_preserves_inv_keys(m, kset, v, pass, expire);
    if has_key(m.entries, kset) {
        let i = key_index(m.entries, kset);
        lemma_key_index_of(m.entries, kset, i);
        assert(es1[i].key == kset);
        if has_key(m.entries, q) {
            let iq = key_index(m.entries, q);
            lemma_key_index_of(m.entries, q, iq);
            if q != kset {
                assert(iq != i);
                assert(es1[iq] == m.entries[iq]);
                lemma_key_index_of(es1, q, iq);
            }
        }
        if has_key(es1, q) && !has_key(m.entries, q) {
            let j = key_index(es1, q);
            assert(m.entries[j].key == q);
        }
    } else {
        let n = m.entries.len() as int;
        assert(es1[n].key == kset);
        if has_key(m.entries, q) {
            let iq = key_index(m.entries, q);
            lemma_key_index_of(m.entries, q, iq);
            assert(es1[iq] == m.entries[iq]);
            if q != kset {
                lemma_key_index_of(es1, q, iq);
            }
        }
        if has_key(es1, q) && !has_key(m.entries, q) && q != kset {
            let j = key_index(es1, q);
            assert(0 <= j < es1.len() && es1[j].key == q);
            assert(j != n);
            assert(m.entries[j].key == q);
        }
    }
}

/// Writing any key keeps the keys of the result unique; the written value
/// and password need not be well formed for that.
proof fn lemma_set_preserves_inv_keys(
    m: StoreModel,
    kset: Seq<char>,
    v: Seq<char>,
    pass: Option<Seq<char>>,
    expire: Option<u64>,
)
    requires
        store_inv(m),
    ensures
        keys_unique(store_set(m, kset, v, pass, expire).entries),
{
    let es1 = store_set(m, kset, v, pass, expire).entries;
    if has_key(m.entries, kset) {
        let i = key_index(m.entries, kset);
        assert forall|p2: int, q2: int| 0 <= p2 < q2 < es1.len() implies es1[p2].key
            != es1[q2].key by {
            assert(es1[p2].key == m.entries[p2].key);
            assert(es1[q2].key == m.entries[q2].key);
        }
    } else {
        let n = m.entries.len() as int;
        assert forall|p2: int, q2: int| 0 <= p2 < q2 < es1.len() implies es1[p2].key
            != es1[q2].key by {
            if q2 < n {
                assert(es1[p2] == m.entries[p2] && es1[q2] == m.entries[q2]);
            } else {
                assert(es1[p2] == m.entries[p2] && es1[q2].key == kset);
            }
        }
    }
}

/// Adding a subkey under a present key keeps the model well formed, and the
/// name then stands in the key's subkey list: half of the subkey round
/// trip.
pub proof fn lemma_add_subkey(
    m: StoreModel,
    k: Seq<char>,
    sk: Seq<char>,
    sv: Seq<char>,
    pass: Option<Seq<char>>,
    expire: Option<u64>,
)
    requires
        store_inv(m),
        has_key(m.entries, k),
        k.len() > 0,
        sk.len() > 0,
        sv.len() > 0,
    ensures
        store_inv(store_add_subkey(m, k, sk, sv, pass, expire)),
        has_key(store_add_subkey(m, k, sk, sv, pass, expire).entries, k),
        subkeys_of(store_add_subkey(m, k, sk, sv, pass, expire), k).contains(sk),
        store_read(store_add_subkey(m, k, sk, sv, pass, expire), sk, pass) == Some(sv),
{
    let m1 = store_set(m, sk, sv, pass, expire);
    lemma_set_preserves_inv(m, sk, sv, pass, expire);
    lemma_set_has_key(m, sk, sv, pass, expire, k);
    lemma_set_then_get(m, sk, sv, pass, expire);
    let i = key_index(m1.entries, k);
    lemma_key_index_of(m1.entries, k, i);
    let e0 = m1.entries[i];
    let m2 = store_add_subkey(m, k, sk, sv, pass, expire);
    if e0.subkeys.contains(sk) {
        assert(m2 == m1);
        assert(subkeys_of(m2, k).contains(sk));
    } else {
        assert(m2.entries == m1.entries.update(
            i,
            EntryModel { subkeys: e0.subkeys.push(sk), ..e0 },
        ));
        assert forall|p2: int, q2: int| 0 <= p2 < q2 < m2.entries.len() implies
            m2.entries[p2].key != m2.entries[q2].key by {
            assert(m2.entries[p2].key == m1.entries[p2].key);
            assert(m2.entries[q2].key == m1.entries[q2].key);
        }
        let sks2 = e0.subkeys.push(sk);
        assert(entry_wf(e0));
        assert forall|p2: int, q2: int| 0 <= p2 < q2 < sks2.len() implies sks2[p2]
            != sks2[q2] by {
            if q2 < e0.subkeys.len() {
                assert(sks2[p2] == e0.subkeys[p2] && sks2[q2] == e0.subkeys[q2]);
            } else {
                assert(sks2[p2] == e0.subkeys[p2] && sks2[q2] == sk);
                assert(e0.subkeys.contains(e0.subkeys[p2]));
            }
        }
        assert forall|p2: int| 0 <= p2 < m2.entries.len() implies entry_wf(
            #[trigger] m2.entries[p2],
        ) by {
            if p2 != i {
                assert(m2.entries[p2] == m1.entries[p2]);
            }
        }
        lemma_key_index_of(m2.entries, k, i);
        assert(subkeys_of(m2, k) == sks2);
        assert(sks2[e0.subkeys.len() as int] == sk);
        assert(subkeys_of(m2, k).contains(sk));
        // the read of sk is untouched by the relink of k's entry
        if k == sk {
            lemma_key_index_of(m2.entries, sk, i);
        } else {
            let isk = key_index(m1.entries, sk);
            lemma_key_index_of(m1.entries, sk, isk);
            assert(isk != i);
            assert(m2.entries[isk] == m1.entries[isk]);
            lemma_key_index_of(m2.entries, sk, isk);
        }
    }
}

/// Removing one subkey keeps the model well formed, and the name then
/// stands in the key's subkey list no more: the other half of the subkey
/// round trip.
pub proof fn lemma_remove_subkey(m: StoreModel, k: Seq<char>, sk: Seq<char>)
    requires
        store_inv(m),
    ensures
        store_inv(store_remove_subkey(m, k, sk)),
        !subkeys_of(store_remove_subkey(m, k, sk), k).contains(sk),
{
    let mu = store_unlink_subkey(m, k, sk);
    lemma_unlink_subkey_preserves_inv(m, k, sk);
    lemma_remove_entry_preserves_inv(mu, sk);
    let m2 = store_remove_subkey(m, k, sk);
    if has_key(m.entries, k) {
        let i = key_index(m.entries, k);
        lemma_key_index_of(m.entries, k, i);
        let e0 = m.entries[i];
        if e0.subkeys.contains(sk) {
            let j = name_index(e0.subkeys, sk);
            let sks1 = e0.subkeys.remove(j);
            assert(0 <= j < e0.subkeys.len() && e0.subkeys[j] == sk);
            e0.subkeys.remove_ensures(j);
            assert(entry_wf(e0));
            assert forall|p2: int| 0 <= p2 < sks1.len() implies sks1[p2] != sk by {
                if p2 < j {
                    assert(sks1[p2] == e0.subkeys[p2]);
                } else {
                    assert(sks1[p2] == e0.subkeys[p2 + 1]);
                }
            }
            lemma_key_index_of(mu.entries, k, i);
            assert(subkeys_of(mu, k) == sks1);
            if k == sk {
                assert(!has_key(m2.entries, k)) by {
                    lemma_remove_entry_effect_self(mu, sk);
                }
            } else {
                lemma_remove_entry_effect(mu, sk, k);
                if has_key(mu.entries, k) {
                    assert(entry_at(m2.entries, k) == entry_at(mu.entries, k));
                    assert(subkeys_of(m2, k) == sks1);
                    if sks1.contains(sk) {
                        let p3 = choose|p3: int| 0 <= p3 < sks1.len() && sks1[p3] == sk;
                        assert(sks1[p3] != sk);
                    }
                }
            }
        } else {
            assert(mu == m);
            if k == sk {
                lemma_remove_entry_effect_self(m, sk);
                assert(!has_key(m2.entries, k));
            } else {
                lemma_remove_entry_effect(m, sk, k);
                if has_key(m.entries, k) {
                    assert(subkeys_of(m2, k) == e0.subkeys);
                }
            }
        }
    } else {
        assert(mu == m);
        if k == sk {
            lemma_remove_entry_effect_self(m, sk);
        } else {
            lemma_remove_entry_effect(m, sk, k);
            if has_key(m2.entries, k) {
                assert(has_key(m.entries, k)) by {
                    let j = key_index(m2.entries, k);
                    if has_key(m.entries, sk) {
                        let isk = key_index(m.entries, sk);
                        m.entries.remove_ensures(isk);
                        if j < isk {
                            assert(m2.entries[j] == m.entries[j]);
                        } else {
                            assert(m2.entries[j] == m.entries[j + 1]);
                        }
                    }
                }
            }
        }
    }
}

/// After removing a key's own entry, the key is absent.
pub proof fn lemma_remove_entry_effect_self(m: StoreModel, k: Seq<char>)
    requires
        store_inv(m),
    ensures
        !has_key(store_remove_entry(m, k).entries, k),
{
    let m1 = store_remove_entry(m, k);
    if has_key(m.entries, k) {
        let i = key_index(m.entries, k);
        m.entries.remove_ensures(i);
        assert forall|j: int| 0 <= j < m1.entries.len() implies m1.entries[j].key != k by {
            if j < i {
                assert(m1.entries[j] == m.entries[j]);
            } else {
                assert(m1.entries[j] == m.entries[j + 1]);
            }
        }
        if has_key(m1.entries, k) {
            let j = key_index(m1.entries, k);
            assert(m1.entries[j].key != k);
        }
    }
}

/// Unlinking a subkey name keeps the model well formed.
pub proof fn lemma_unlink_subkey_preserves_inv(m: StoreModel, k: Seq<char>, sk: Seq<char>)
    requires
        store_inv(m),
    ensures
        store_inv(store_unlink_subkey(m, k, sk)),
{
    let mu = store_unlink_subkey(m, k, sk);
    if has_key(m.entries, k) {
        let i = key_index(m.entries, k);
        lemma_key_index_of(m.entries, k, i);
        let e0 = m.entries[i];
        if e0.subkeys.contains(sk) {
            let j = name_index(e0.subkeys, sk);
            assert(0 <= j < e0.subkeys.len() && e0.subkeys[j] == sk);
            e0.subkeys.remove_ensures(j);
            let sks1 = e0.subkeys.remove(j);
            assert(entry_wf(e0));
            assert forall|p2: int, q2: int| 0 <= p2 < q2 < sks1.len() implies sks1[p2]
                != sks1[q2] by {
                if q2 < j {
                    assert(sks1[p2] == e0.subkeys[p2] && sks1[q2] == e0.subkeys[q2]);
                } else if p2 < j {
                    assert(sks1[p2] == e0.subkeys[p2] && sks1[q2] == e0.subkeys[q2 + 1]);
                } else {
                    assert(sks1[p2] == e0.subkeys[p2 + 1] && sks1[q2] == e0.subkeys[q2 + 1]);
                }
            }
            assert forall|p2: int| 0 <= p2 < sks1.len() implies sks1[p2].len() > 0 by {
                if p2 < j {
                    assert(sks1[p2] == e0.subkeys[p2]);
                } else {
                    assert(sks1[p2] == e0.subkeys[p2 + 1]);
                }
            }
            assert forall|p2: int, q2: int| 0 <= p2 < q2 < mu.entries.len() implies
                mu.entries[p2].key != mu.entries[q2].key by {
                assert(mu.entries[p2].key == m.entries[p2].key);
                assert(mu.entries[q2].key == m.entries[q2].key);
            }
            assert forall|p2: int| 0 <= p2 < mu.entries.len() implies entry_wf(
                #[trigger] mu.entries[p2],
            ) by {
                if p2 != i {
                    assert(mu.entries[p2] == m.entries[p2]);
                }
            }
        }
    }
}

/// Attaching an attribute to a present key keeps the model well formed.
pub proof fn lemma_set_attribute_preserves_inv(
    m: StoreModel,
    k: Seq<char>,
    n: Seq<char>,
    v: Seq<char>,
)
    requires
        store_inv(m),
        has_key(m.entries, k),
        n.len() > 0,
        v.len() > 0,
    ensures
        store_inv(store_set_attribute(m, k, n, v)),
{
    let i = key_index(m.entries, k);
    lemma_key_index_of(m.entries, k, i);
    let e0 = m.entries[i];
    assert(entry_wf(e0));
    let a = AttrModel { name: n, value: v };
    let m2 = store_set_attribute(m, k, n, v);
    let attrs2 = if has_attr(e0.attrs, n) {
        e0.attrs.update(attr_index(e0.attrs, n), a)
    } else {
        e0.attrs.push(a)
    };
    if has_attr(e0.attrs, n) {
        let j = attr_index(e0.attrs, n);
        assert(0 <= j < e0.attrs.len() && e0.attrs[j].name == n);
        assert forall|p2: int, q2: int| 0 <= p2 < q2 < attrs2.len() implies attrs2[p2].name
            != attrs2[q2].name by {
            assert(attrs2[p2].name == e0.attrs[p2].name);
            assert(attrs2[q2].name == e0.attrs[q2].name);
        }
        assert forall|p2: int| 0 <= p2 < attrs2.len() implies attrs2[p2].name.len() > 0
            && attrs2[p2].value.len() > 0 by {
            if p2 != j {
                assert(attrs2[p2] == e0.attrs[p2]);
            }
        }
    } else {
        let na = e0.attrs.len() as int;
        assert forall|p2: int, q2: int| 0 <= p2 < q2 < attrs2.len() implies attrs2[p2].name
            != attrs2[q2].name by {
            if q2 < na {
                assert(attrs2[p2] == e0.attrs[p2] && attrs2[q2] == e0.attrs[q2]);
            } else {
                assert(attrs2[p2] == e0.attrs[p2] && attrs2[q2].name == n);
                if attrs2[p2].name == n {
                    assert(has_attr(e0.attrs, n));
                }
            }
        }
        assert forall|p2: int| 0 <= p2 < attrs2.len() implies attrs2[p2].name.len() > 0
            && attrs2[p2].value.len() > 0 by {
            if p2 < na {
                assert(attrs2[p2] == e0.attrs[p2]);
            }
        }
    }
    assert forall|p2: int, q2: int| 0 <= p2 < q2 < m2.entries.len() implies m2.entries[p2].key
        != m2.entries[q2].key by {
        assert(m2.entries[p2].key == m.entries[p2].key);
        assert(m2.entries[q2].key == m.entries[q2].key);
    }
    assert forall|p2: int| 0 <= p2 < m2.entries.len() implies entry_wf(
        #[trigger] m2.entries[p2],
    ) by {
        if p2 != i {
            assert(m2.entries[p2] == m.entries[p2]);
        }
    }
}

/// After `set(k, v)` with a password, a `get(k)` with the same password
/// yields `v`; with no password, a plain `get(k)` yields `v` as well, also
/// where encrypt-by-default stores the entry under the default password,
/// since that password is registered for decryption.
pub proof fn lemma_set_then_get(
    m: StoreModel,
    k: Seq<char>,
    v: Seq<char>,
    pass: Option<Seq<char>>,
    expire: Option<u64>,
)
    requires
        store_inv(m),
        k.len() > 0,
        v.len() > 0,
    ensures
        store_read(store_set(m, k, v, pass, expire), k, pass) == Some(v),
{
    let m1 = store_set(m, k, v, pass, expire);
    lemma_set_preserves_inv(m, k, v, pass, expire);
    let p = effective_password(m, pass);
    if has_key(m.entries, k) {
        let i = key_index(m.entries, k);
        lemma_key_index_of(m1.entries, k, i);
    } else {
        let n = m.entries.len() as int;
        lemma_key_index_of(m1.entries, k, n);
    }
    let e = entry_at(m1.entries, k);
    assert(e.value == v && e.password == p);
    if p is Some && pass is None {
        assert(m.dec_passwords.contains(p->0));
    }
}
} // verus!
