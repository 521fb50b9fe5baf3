//! The key-value queue: FIFO or LIFO ordered delivery of key/value pairs,
//! scoped to a namespace and a prefix.
//!
//! A `KeyQueue` value is a binding, as a `Queue` is: the pending pairs
//! live in the namespace, in the one key-value-queue partition of the
//! binding's prefix, so every key-value queue bound to one namespace and
//! prefix observes the same sequence, and the sequence outlives any
//! single queue value. The two queue engines keep separate partition
//! families: a value queue and a key-value queue of one prefix do not
//! share elements.
//!
//! The ordering discipline and the delivery laws live in [`crate::order`];
//! the sharing law is [`crate::model::lemma_kq_set`].

use vstd::prelude::*;

use crate::errors::K2hError;
use crate::model::kq_items;
use crate::model::store_kq_clear;
use crate::model::store_kq_set;
use crate::order::front_of;
use crate::order::lemma_element_is_later_pop;
use crate::order::lemma_pop_n_len;
use crate::order::lemma_pop_n_step;
use crate::order::peek_at;
use crate::order::pop_n;
use crate::order::popped;
use crate::order::pops_list;
use crate::queue::BaseModel;
use crate::queue::BaseQueue;
use crate::store::K2hash;
use crate::store::opt_string_view;

verus! {

/// A queue of key/value pairs over a namespace, delivering in FIFO or
/// LIFO order.
///
/// The queue's pairs live in the namespace: every operation reads or
/// writes the key-value-queue partition of the binding's prefix in the
/// namespace handed to it.
pub struct KeyQueue {
    base: BaseQueue,
}

impl View for KeyQueue {
    type V = BaseModel;

    closed spec fn view(&self) -> BaseModel {
        self.base@
    }
}

impl KeyQueue {
    /// Bind a key-value queue to a namespace handle. Binding writes
    /// nothing: a partition of the same prefix, with whatever pairs it
    /// holds, is simply observed, so binding is idempotent with respect
    /// to stored pairs.
    pub fn new(
        k2h: u64,
        fifo: bool,
        prefix: Option<String>,
        password: Option<String>,
        expire_duration: Option<u64>,
    ) -> (r: Result<KeyQueue, K2hError>)
        ensures
            r is Ok <==> k2h != 0,
            r is Err ==> r == Err::<KeyQueue, K2hError>(K2hError::QueueCreateFailed),
            r is Ok ==> r->Ok_0@ == (BaseModel {
                k2h,
                fifo,
                prefix: opt_string_view(prefix),
                password: opt_string_view(password),
                expire: expire_duration,
                handle: k2h,
            }),
    {
        let mut base = BaseQueue::new(k2h, fifo, prefix, password, expire_duration);
        if k2h == 0 {
            return Err(K2hError::QueueCreateFailed);
        }
        base.handle = k2h;
        Ok(KeyQueue { base })
    }

    /// Get the queue handle; non-zero until the queue is closed.
    pub fn handle(&self) -> (r: u64)
        ensures
            r == self@.handle,
    {
        self.base.handle
    }

    /// Push a key/value pair at the tail of the queue's partition in
    /// `db`. An empty key or value is rejected; a closed queue takes
    /// nothing.
    pub fn put(&self, db: &mut K2hash, key: &str, value: &str) -> (r: Result<(), K2hError>)
        requires
            old(db).wf(),
        ensures
            final(db).wf(),
            final(db).spec_handle() == old(db).spec_handle(),
            key@.len() == 0 || value@.len() == 0 ==> r == Err::<(), K2hError>(
                K2hError::EmptyField,
            ) && final(db)@ == old(db)@,
            key@.len() > 0 && value@.len() > 0 && self@.handle == 0 ==> r == Err::<
                (),
                K2hError,
            >(K2hError::PushFailed) && final(db)@ == old(db)@,
            key@.len() > 0 && value@.len() > 0 && self@.handle != 0 ==> r is Ok && final(db)@ == store_kq_set(
                old(db)@,
                self@.prefix,
                kq_items(old(db)@, self@.prefix).push((key@, value@)),
            ),
    {
        if key.is_empty() || value.is_empty() {
            return Err(K2hError::EmptyField);
        }
        if self.base.handle == 0 {
            return Err(K2hError::PushFailed);
        }
        db.kq_push_item(&self.base.prefix, key, value);
        Ok(())
    }

    /// Pop the pair at the configured pop end of the queue's partition in
    /// `db`. An empty or closed queue yields nothing, and never an error.
    pub fn get(&self, db: &mut K2hash) -> (r: Option<(String, String)>)
        requires
            old(db).wf(),
        ensures
            final(db).wf(),
            final(db).spec_handle() == old(db).spec_handle(),
            self@.handle == 0 || kq_items(old(db)@, self@.prefix).len() == 0 ==> r is None
                && final(db)@ == old(db)@,
            self@.handle != 0 && kq_items(old(db)@, self@.prefix).len() > 0 ==> (r matches
                Some(kv) && kv.deep_view() == front_of(
                kq_items(old(db)@, self@.prefix),
                self@.fifo,
            ) && final(db)@ == store_kq_set(
                old(db)@,
                self@.prefix,
                popped(kq_items(old(db)@, self@.prefix), self@.fifo),
            )),
    {
        if self.base.handle == 0 {
            return None;
        }
        if self.base.fifo {
            db.kq_pop_head(&self.base.prefix)
        } else {
            db.kq_pop_tail(&self.base.prefix)
        }
    }

    /// The number of pending pairs of the queue's partition in `db`; zero
    /// for a closed queue.
    pub fn qsize(&self, db: &K2hash) -> (r: usize)
        requires
            db.wf(),
        ensures
            self@.handle != 0 ==> r == kq_items(db@, self@.prefix).len(),
            self@.handle == 0 ==> r == 0,
    {
        if self.base.handle == 0 {
            return 0;
        }
        db.kq_count(&self.base.prefix)
    }

    /// Read the pair at a zero-based offset from the pop end of the
    /// queue's partition in `db`, without popping. An offset at or past
    /// the count yields nothing.
    pub fn element(&self, db: &K2hash, position: usize) -> (r: Option<(String, String)>)
        requires
            db.wf(),
        ensures
            self@.handle != 0 && position < kq_items(db@, self@.prefix).len() ==> (r matches
                Some(kv) && kv.deep_view() == peek_at(
                kq_items(db@, self@.prefix),
                self@.fifo,
                position as int,
            )),
            self@.handle == 0 || position >= kq_items(db@, self@.prefix).len() ==> r
                is None,
    {
        if self.base.handle == 0 {
            return None;
        }
        let count = db.kq_count(&self.base.prefix);
        if position >= count {
            return None;
        }
        let idx = if self.base.fifo {
            position
        } else {
            count - 1 - position
        };
        db.kq_at(&self.base.prefix, idx)
    }

    /// Whether the queue's partition in `db` holds nothing to pop.
    pub fn empty(&self, db: &K2hash) -> (r: bool)
        requires
            db.wf(),
        ensures
            r <==> (self@.handle == 0 || kq_items(db@, self@.prefix).len() == 0),
    {
        self.qsize(db) == 0
    }

    /// Pop up to `count` pairs of the queue's partition in `db`, in pop
    /// order, stopping without error when the partition runs empty;
    /// exactly the pairs popped are returned.
    pub fn remove(&self, db: &mut K2hash, count: usize) -> (r: Result<
        Vec<(String, String)>,
        K2hError,
    >)
        requires
            old(db).wf(),
        ensures
            final(db).wf(),
            final(db).spec_handle() == old(db).spec_handle(),
            r is Ok,
            self@.handle == 0 ==> final(db)@ == old(db)@ && r->Ok_0.deep_view() == Seq::<
                (Seq<char>, Seq<char>),
            >::empty(),
            self@.handle != 0 ==> ({
                let items0 = kq_items(old(db)@, self@.prefix);
                let k = if count <= items0.len() {
                    count as nat
                } else {
                    items0.len()
                };
                r->Ok_0.deep_view() == pops_list(items0, self@.fifo, k) && (if k == 0 {
                    final(db)@ == old(db)@
                } else {
                    final(db)@ == store_kq_set(
                        old(db)@,
                        self@.prefix,
                        pop_n(items0, self@.fifo, k),
                    )
                })
            }),
    {
        let mut out: Vec<(String, String)> = Vec::new();
        proof {
            assert(out.deep_view() =~~= Seq::<(Seq<char>, Seq<char>)>::empty());
        }
        if self.base.handle == 0 {
            return Ok(out);
        }
        let avail = db.kq_count(&self.base.prefix);
        let k = if count <= avail {
            count
        } else {
            avail
        };
        let ghost m0 = db@;
        let ghost pv = self@.prefix;
        let ghost fifo = self@.fifo;
        let ghost items0 = kq_items(m0, pv);
        proof {
            assert(pop_n(items0, fifo, 0) == items0);
        }
        let mut t: usize = 0;
        while t < k
            invariant
                t <= k,
                k <= items0.len(),
                m0 == old(db)@,
                crate::model::store_inv(m0),
                pv == self@.prefix,
                fifo == self@.fifo,
                items0 == kq_items(m0, pv),
                db.wf(),
                db.spec_handle() == old(db).spec_handle(),
                kq_items(db@, pv) == pop_n(items0, fifo, t as nat),
                t == 0 ==> db@ == m0,
                t > 0 ==> db@ == store_kq_set(m0, pv, pop_n(items0, fifo, t as nat)),
                out@.len() == t,
                forall|p: int| 0 <= p < t ==> out.deep_view()[p] == peek_at(items0, fifo, p),
            decreases k - t,
        {
            proof {
                lemma_pop_n_len(items0, fifo, t as nat);
                lemma_element_is_later_pop(items0, fifo, t as int);
                lemma_pop_n_step(items0, fifo, t as nat);
            }
            let ghost pre = db@;
            let ghost prev = out@;
            let ghost prevdeep = out.deep_view();
            let got = if self.base.fifo {
                db.kq_pop_head(&self.base.prefix)
            } else {
                db.kq_pop_tail(&self.base.prefix)
            };
            match got {
                Some(kv) => {
                    out.push(kv);
                    proof {
                        assert forall|p: int| 0 <= p < t + 1 implies out.deep_view()[p]
                            == peek_at(items0, fifo, p) by {
                            assert(out.deep_view()[p] == out@[p].deep_view());
                            if p < t {
                                assert(out@[p] == prev[p]);
                                assert(prevdeep[p] == prev[p].deep_view());
                            }
                        }
                        assert(db@ == store_kq_set(
                            pre,
                            pv,
                            pop_n(items0, fifo, (t + 1) as nat),
                        ));
                        crate::model::lemma_kq_set(pre, pv, pop_n(items0, fifo, (t + 1) as nat));
                        if t > 0 {
                            crate::model::lemma_kq_set_twice(
                                m0,
                                pv,
                                pop_n(items0, fifo, t as nat),
                                pop_n(items0, fifo, (t + 1) as nat),
                            );
                        }
                    }
                },
                None => {
                    proof {
                        assert(false);
                    }
                },
            }
            t += 1;
        }
        proof {
            assert(out.deep_view() =~~= pops_list(items0, fifo, k as nat));
        }
        Ok(out)
    }

    /// Remove every pending pair of the queue's partition in `db`; a
    /// no-op success on an empty or closed queue. The count afterwards is
    /// zero.
    pub fn clear(&self, db: &mut K2hash) -> (r: bool)
        requires
            old(db).wf(),
        ensures
            final(db).wf(),
            final(db).spec_handle() == old(db).spec_handle(),
            r == true,
            self@.handle != 0 ==> final(db)@ == store_kq_clear(old(db)@, self@.prefix),
            self@.handle == 0 ==> final(db)@ == old(db)@,
    {
        if self.base.handle != 0 {
            db.kq_clear_part(&self.base.prefix);
        }
        true
    }

    /// Release the queue handle. The namespace is not touched: stored
    /// pairs persist in the partition until cleared or removed, and a
    /// key-value queue later bound to the same namespace and prefix
    /// observes them. Closing an already-closed queue reports failure
    /// without harm.
    pub fn close(&mut self) -> (r: bool)
        ensures
            r == (old(self)@.handle != 0),
            final(self)@ == (BaseModel { handle: 0, ..old(self)@ }),
    {
        let was_open = self.base.handle != 0;
        self.base.handle = 0;
        proof {
            assert(self@ =~~= (BaseModel { handle: 0, ..old(self)@ }));
        }
        was_open
    }
}

/// The staged configuration a key-value queue builder accumulates.
pub ghost struct KeyQueueConfig {
    pub k2h: u64,
    pub fifo: bool,
    pub prefix: Option<Seq<char>>,
    pub password: Option<Seq<char>>,
    pub expire: Option<u64>,
}

/// A staged configuration for a key-value queue: direction, prefix,
/// password and expiration accumulate, and `build` binds the queue. Unset
/// options keep the defaults: FIFO, no prefix, no password, no
/// expiration.
pub struct KeyQueueBuilder {
    k2h: u64,
    fifo: bool,
    prefix: Option<String>,
    password: Option<String>,
    expire_duration: Option<u64>,
}

impl View for KeyQueueBuilder {
    type V = KeyQueueConfig;

    closed spec fn view(&self) -> KeyQueueConfig {
        KeyQueueConfig {
            k2h: self.k2h,
            fifo: self.fifo,
            prefix: opt_string_view(self.prefix),
            password: opt_string_view(self.password),
            expire: self.expire_duration,
        }
    }
}

impl KeyQueueBuilder {
    /// Start a configuration with the defaults: FIFO, no prefix, no
    /// password, no expiration.
    pub fn new(k2h: u64) -> (r: KeyQueueBuilder)
        ensures
            r@ == (KeyQueueConfig {
                k2h,
                fifo: true,
                prefix: None,
                password: None,
                expire: None,
            }),
    {
        KeyQueueBuilder {
            k2h,
            fifo: true,
            prefix: None,
            password: None,
            expire_duration: None,
        }
    }

    /// Select the delivery direction.
    pub fn fifo(self, fifo: bool) -> (r: KeyQueueBuilder)
        ensures
            r@ == (KeyQueueConfig { fifo, ..self@ }),
    {
        KeyQueueBuilder { fifo, ..self }
    }

    /// Set the prefix that scopes the queue within the namespace.
    pub fn prefix(self, prefix: String) -> (r: KeyQueueBuilder)
        ensures
            r@ == (KeyQueueConfig { prefix: Some(prefix@), ..self@ }),
    {
        KeyQueueBuilder { prefix: Some(prefix), ..self }
    }

    /// Set the password applied to every pushed pair.
    pub fn password(self, password: String) -> (r: KeyQueueBuilder)
        ensures
            r@ == (KeyQueueConfig { password: Some(password@), ..self@ }),
    {
        KeyQueueBuilder { password: Some(password), ..self }
    }

    /// Set the expiration applied to every pushed pair.
    pub fn expire_duration(self, expire_duration: u64) -> (r: KeyQueueBuilder)
        ensures
            r@ == (KeyQueueConfig { expire: Some(expire_duration), ..self@ }),
    {
        KeyQueueBuilder { expire_duration: Some(expire_duration), ..self }
    }

    /// Bind the key-value queue under the accumulated configuration.
    pub fn build(self) -> (r: Result<KeyQueue, K2hError>)
        ensures
            r is Ok <==> self@.k2h != 0,
            r is Err ==> r == Err::<KeyQueue, K2hError>(K2hError::QueueCreateFailed),
            r is Ok ==> r->Ok_0@ == (BaseModel {
                k2h: self@.k2h,
                fifo: self@.fifo,
                prefix: self@.prefix,
                password: self@.password,
                expire: self@.expire,
                handle: self@.k2h,
            }),
    {
        KeyQueue::new(self.k2h, self.fifo, self.prefix, self.password, self.expire_duration)
    }
}

} // verus!
