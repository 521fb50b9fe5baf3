//! The value queue: FIFO or LIFO ordered delivery of values, scoped to a
//! namespace and a prefix.
//!
//! A `Queue` value is a binding: it records the namespace handle it was
//! built from, the direction flag, the prefix, and the password and
//! expiration applied to every push. The pending elements themselves live
//! in the namespace, in the one value-queue partition of the binding's
//! prefix, so every queue bound to one namespace and prefix observes the
//! same sequence, and the sequence outlives any single queue value.
//! Elements are always pushed at the tail; the direction flag only selects
//! which end a pop reads from (FIFO: the head, LIFO: the tail).
//!
//! The ordering discipline and the delivery laws live in [`crate::order`];
//! the sharing law is [`crate::model::lemma_vq_set`].

use vstd::prelude::*;

use crate::errors::K2hError;
use crate::model::store_vq_clear;
use crate::model::store_vq_set;
use crate::model::vq_items;
use crate::order::front_of;
use crate::order::lemma_element_is_later_pop;
use crate::order::lemma_pop_n_len;
use crate::order::lemma_pop_n_step;
use crate::order::peek_at;
use crate::order::pop_n;
use crate::order::popped;
use crate::order::pops_list;
use crate::store::K2hash;
use crate::store::opt_string_view;

verus! {

/// The model of a queue binding: the namespace handle it was built from,
/// the direction, the scope options and the queue handle.
pub ghost struct BaseModel {
    /// The namespace handle the queue was bound to.
    pub k2h: u64,
    /// Pops read from the head where true, from the tail where false.
    pub fifo: bool,
    /// The prefix naming the partition this queue reads and writes.
    pub prefix: Option<Seq<char>>,
    /// The password applied to every pushed element.
    pub password: Option<Seq<char>>,
    /// The expiration applied to every pushed element.
    pub expire: Option<u64>,
    /// The queue handle; zero before binding and after closing.
    pub handle: u64,
}

/// The shared base of the value queue and the key-value queue: the
/// namespace handle, the direction flag, the scope options and the queue
/// handle.
pub struct BaseQueue {
    pub(crate) k2h: u64,
    pub(crate) fifo: bool,
    pub(crate) prefix: Option<String>,
    pub(crate) password: Option<String>,
    pub(crate) expire_duration: Option<u64>,
    pub(crate) handle: u64,
}

impl View for BaseQueue {
    type V = BaseModel;

    open(crate) spec fn view(&self) -> BaseModel {
        BaseModel {
            k2h: self.k2h,
            fifo: self.fifo,
            prefix: opt_string_view(self.prefix),
            password: opt_string_view(self.password),
            expire: self.expire_duration,
            handle: self.handle,
        }
    }
}

impl BaseQueue {
    /// Create a queue base, not yet bound to a queue handle.
    pub fn new(
        k2h: u64,
        fifo: bool,
        prefix: Option<String>,
        password: Option<String>,
        expire_duration: Option<u64>,
    ) -> (r: BaseQueue)
        ensures
            r@ == (BaseModel {
                k2h,
                fifo,
                prefix: opt_string_view(prefix),
                password: opt_string_view(password),
                expire: expire_duration,
                handle: 0,
            }),
    {
        BaseQueue { k2h, fifo, prefix, password, expire_duration, handle: 0 }
    }

    /// Get the queue handle; zero while unbound or closed.
    pub fn handle(&self) -> (r: u64)
        ensures
            r == self@.handle,
    {
        self.handle
    }
}

/// A queue of values over a namespace, delivering in FIFO or LIFO order.
///
/// The queue's elements live in the namespace: every operation reads or
/// writes the value-queue partition of the binding's prefix in the
/// namespace handed to it.
pub struct Queue {
    base: BaseQueue,
}

impl View for Queue {
    type V = BaseModel;

    closed spec fn view(&self) -> BaseModel {
        self.base@
    }
}

impl Queue {
    /// Bind a queue to a namespace handle. Binding writes nothing: a
    /// partition of the same prefix, with whatever elements it holds,
    /// is simply observed, so binding is idempotent with respect to
    /// stored elements.
    pub fn new(
        k2h: u64,
        fifo: bool,
        prefix: Option<String>,
        password: Option<String>,
        expire_duration: Option<u64>,
    ) -> (r: Result<Queue, K2hError>)
        ensures
            r is Ok <==> k2h != 0,
            r is Err ==> r == Err::<Queue, K2hError>(K2hError::QueueCreateFailed),
            r is Ok ==> r->Ok_0@ == (BaseModel {
                k2h,
                fifo,
                prefix: opt_string_view(prefix),
                password: opt_string_view(password),
                expire: expire_duration,
                handle: k2h,
            }),
    {
        let mut base = BaseQueue::new(k2h, fifo, prefix, password, expire_duration);
        if k2h == 0 {
            return Err(K2hError::QueueCreateFailed);
        }
        base.handle = k2h;
        Ok(Queue { base })
    }

    /// Get the queue handle; non-zero until the queue is closed.
    pub fn handle(&self) -> (r: u64)
        ensures
            r == self@.handle,
    {
        self.base.handle
    }

    /// Push a value at the tail of the queue's partition in `db`. An empty
    /// value is rejected; a closed queue takes nothing.
    pub fn put(&self, db: &mut K2hash, value: &str) -> (r: Result<(), K2hError>)
        requires
            old(db).wf(),
        ensures
            final(db).wf(),
            final(db).spec_handle() == old(db).spec_handle(),
            value@.len() == 0 ==> r == Err::<(), K2hError>(K2hError::EmptyField) && final(db)@ == old(db)@,
            value@.len() > 0 && self@.handle == 0 ==> r == Err::<(), K2hError>(
                K2hError::PushFailed,
            ) && final(db)@ == old(db)@,
            value@.len() > 0 && self@.handle != 0 ==> r is Ok && final(db)@ == store_vq_set(
                old(db)@,
                self@.prefix,
                vq_items(old(db)@, self@.prefix).push(value@),
            ),
    {
        if value.is_empty() {
            return Err(K2hError::EmptyField);
        }
        if self.base.handle == 0 {
            return Err(K2hError::PushFailed);
        }
        db.vq_push_item(&self.base.prefix, value);
        Ok(())
    }

    /// Pop the element at the configured pop end of the queue's partition
    /// in `db`. An empty or closed queue yields nothing, and never an
    /// error.
    pub fn get(&self, db: &mut K2hash) -> (r: Option<String>)
        requires
            old(db).wf(),
        ensures
            final(db).wf(),
            final(db).spec_handle() == old(db).spec_handle(),
            self@.handle == 0 || vq_items(old(db)@, self@.prefix).len() == 0 ==> r is None
                && final(db)@ == old(db)@,
            self@.handle != 0 && vq_items(old(db)@, self@.prefix).len() > 0 ==> (r matches
                Some(v) && v@ == front_of(vq_items(old(db)@, self@.prefix), self@.fifo)
                && final(db)@ == store_vq_set(
                old(db)@,
                self@.prefix,
                popped(vq_items(old(db)@, self@.prefix), self@.fifo),
            )),
    {
        if self.base.handle == 0 {
            return None;
        }
        if self.base.fifo {
            db.vq_pop_head(&self.base.prefix)
        } else {
            db.vq_pop_tail(&self.base.prefix)
        }
    }

    /// The number of pending elements of the queue's partition in `db`;
    /// zero for a closed queue.
    pub fn qsize(&self, db: &K2hash) -> (r: usize)
        requires
            db.wf(),
        ensures
            self@.handle != 0 ==> r == vq_items(db@, self@.prefix).len(),
            self@.handle == 0 ==> r == 0,
    {
        if self.base.handle == 0 {
            return 0;
        }
        db.vq_count(&self.base.prefix)
    }

    /// Read the element at a zero-based offset from the pop end of the
    /// queue's partition in `db`, without popping. An offset at or past
    /// the count yields nothing.
    pub fn element(&self, db: &K2hash, position: usize) -> (r: Option<String>)
        requires
            db.wf(),
        ensures
            self@.handle != 0 && position < vq_items(db@, self@.prefix).len() ==> (r matches
                Some(v) && v@ == peek_at(
                vq_items(db@, self@.prefix),
                self@.fifo,
                position as int,
            )),
            self@.handle == 0 || position >= vq_items(db@, self@.prefix).len() ==> r
                is None,
    {
        if self.base.handle == 0 {
            return None;
        }
        let count = db.vq_count(&self.base.prefix);
        if position >= count {
            return None;
        }
        let idx = if self.base.fifo {
            position
        } else {
            count - 1 - position
        };
        db.vq_at(&self.base.prefix, idx)
    }

    /// Whether the queue's partition in `db` holds nothing to pop.
    pub fn empty(&self, db: &K2hash) -> (r: bool)
        requires
            db.wf(),
        ensures
            r <==> (self@.handle == 0 || vq_items(db@, self@.prefix).len() == 0),
    {
        self.qsize(db) == 0
    }

    /// Pop up to `count` elements of the queue's partition in `db`, in pop
    /// order, stopping without error when the partition runs empty;
    /// exactly the elements popped are returned.
    pub fn remove(&self, db: &mut K2hash, count: usize) -> (r: Result<Vec<String>, K2hError>)
        requires
            old(db).wf(),
        ensures
            final(db).wf(),
            final(db).spec_handle() == old(db).spec_handle(),
            r is Ok,
            self@.handle == 0 ==> final(db)@ == old(db)@ && r->Ok_0.deep_view() == Seq::<
                Seq<char>,
            >::empty(),
            self@.handle != 0 ==> ({
                let items0 = vq_items(old(db)@, self@.prefix);
                let k = if count <= items0.len() {
                    count as nat
                } else {
                    items0.len()
                };
                r->Ok_0.deep_view() == pops_list(items0, self@.fifo, k) && (if k == 0 {
                    final(db)@ == old(db)@
                } else {
                    final(db)@ == store_vq_set(
                        old(db)@,
                        self@.prefix,
                        pop_n(items0, self@.fifo, k),
                    )
                })
            }),
    {
        let mut out: Vec<String> = Vec::new();
        proof {
            assert(out.deep_view() =~~= Seq::<Seq<char>>::empty());
        }
        if self.base.handle == 0 {
            return Ok(out);
        }
        let avail = db.vq_count(&self.base.prefix);
        let k = if count <= avail {
            count
        } else {
            avail
        };
        let ghost m0 = db@;
        let ghost pv = self@.prefix;
        let ghost fifo = self@.fifo;
        let ghost items0 = vq_items(m0, pv);
        proof {
            assert(pop_n(items0, fifo, 0) == items0);
        }
        let mut t: usize = 0;
        while t < k
            invariant
                t <= k,
                k <= items0.len(),
                m0 == old(db)@,
                crate::model::store_inv(m0),
                pv == self@.prefix,
                fifo == self@.fifo,
                items0 == vq_items(m0, pv),
                db.wf(),
                db.spec_handle() == old(db).spec_handle(),
                vq_items(db@, pv) == pop_n(items0, fifo, t as nat),
                t == 0 ==> db@ == m0,
                t > 0 ==> db@ == store_vq_set(m0, pv, pop_n(items0, fifo, t as nat)),
                out@.len() == t,
                forall|p: int| 0 <= p < t ==> out.deep_view()[p] == peek_at(items0, fifo, p),
            decreases k - t,
        {
            proof {
                lemma_pop_n_len(items0, fifo, t as nat);
                lemma_element_is_later_pop(items0, fifo, t as int);
                lemma_pop_n_step(items0, fifo, t as nat);
            }
            let ghost pre = db@;
            let ghost prev = out@;
            let ghost prevdeep = out.deep_view();
            let got = if self.base.fifo {
                db.vq_pop_head(&self.base.prefix)
            } else {
                db.vq_pop_tail(&self.base.prefix)
            };
            match got {
                Some(v) => {
                    out.push(v);
                    proof {
                        assert forall|p: int| 0 <= p < t + 1 implies out.deep_view()[p]
                            == peek_at(items0, fifo, p) by {
                            assert(out.deep_view()[p] == out@[p].deep_view());
                            if p < t {
                                assert(out@[p] == prev[p]);
                                assert(prevdeep[p] == prev[p].deep_view());
                            }
                        }
                        assert(db@ == store_vq_set(
                            pre,
                            pv,
                            pop_n(items0, fifo, (t + 1) as nat),
                        ));
                        crate::model::lemma_vq_set(pre, pv, pop_n(items0, fifo, (t + 1) as nat));
                        if t > 0 {
                            crate::model::lemma_vq_set_twice(
                                m0,
                                pv,
                                pop_n(items0, fifo, t as nat),
                                pop_n(items0, fifo, (t + 1) as nat),
                            );
                        }
                    }
                },
                None => {
                    proof {
                        assert(false);
                    }
                },
            }
            t += 1;
        }
        proof {
            assert(out.deep_view() =~~= pops_list(items0, fifo, k as nat));
        }
        Ok(out)
    }

    /// Remove every pending element of the queue's partition in `db`; a
    /// no-op success on an empty or closed queue. The count afterwards is
    /// zero.
    pub fn clear(&self, db: &mut K2hash) -> (r: bool)
        requires
            old(db).wf(),
        ensures
            final(db).wf(),
            final(db).spec_handle() == old(db).spec_handle(),
            r == true,
            self@.handle != 0 ==> final(db)@ == store_vq_clear(old(db)@, self@.prefix),
            self@.handle == 0 ==> final(db)@ == old(db)@,
    {
        if self.base.handle != 0 {
            db.vq_clear_part(&self.base.prefix);
        }
        true
    }

    /// Release the queue handle. The namespace is not touched: stored
    /// elements persist in the partition until cleared or removed, and a
    /// queue later bound to the same namespace and prefix observes them.
    /// Closing an already-closed queue reports failure without harm.
    pub fn close(&mut self) -> (r: bool)
        ensures
            r == (old(self)@.handle != 0),
            final(self)@ == (BaseModel { handle: 0, ..old(self)@ }),
    {
        let was_open = self.base.handle != 0;
        self.base.handle = 0;
        proof {
            assert(self@ =~~= (BaseModel { handle: 0, ..old(self)@ }));
        }
        was_open
    }
}

/// The staged configuration a queue builder accumulates.
pub ghost struct QueueConfig {
    pub k2h: u64,
    pub fifo: bool,
    pub prefix: Option<Seq<char>>,
    pub password: Option<Seq<char>>,
    pub expire: Option<u64>,
}

/// A staged configuration for a value queue: direction, prefix, password
/// and expiration accumulate, and `build` binds the queue. Unset options
/// keep the defaults: FIFO, no prefix, no password, no expiration.
pub struct QueueBuilder {
    k2h: u64,
    fifo: bool,
    prefix: Option<String>,
    password: Option<String>,
    expire_duration: Option<u64>,
}

impl View for QueueBuilder {
    type V = QueueConfig;

    closed spec fn view(&self) -> QueueConfig {
        QueueConfig {
            k2h: self.k2h,
            fifo: self.fifo,
            prefix: opt_string_view(self.prefix),
            password: opt_string_view(self.password),
            expire: self.expire_duration,
        }
    }
}

impl QueueBuilder {
    /// Start a configuration with the defaults: FIFO, no prefix, no
    /// password, no expiration.
    pub fn new(k2h: u64) -> (r: QueueBuilder)
        ensures
            r@ == (QueueConfig {
                k2h,
                fifo: true,
                prefix: None,
                password: None,
                expire: None,
            }),
    {
        QueueBuilder { k2h, fifo: true, prefix: None, password: None, expire_duration: None }
    }

    /// Select the delivery direction.
    pub fn fifo(self, fifo: bool) -> (r: QueueBuilder)
        ensures
            r@ == (QueueConfig { fifo, ..self@ }),
    {
        QueueBuilder { fifo, ..self }
    }

    /// Set the prefix that scopes the queue within the namespace.
    pub fn prefix(self, prefix: String) -> (r: QueueBuilder)
        ensures
            r@ == (QueueConfig { prefix: Some(prefix@), ..self@ }),
    {
        QueueBuilder { prefix: Some(prefix), ..self }
    }

    /// Set the password applied to every pushed element.
    pub fn password(self, password: String) -> (r: QueueBuilder)
        ensures
            r@ == (QueueConfig { password: Some(password@), ..self@ }),
    {
        QueueBuilder { password: Some(password), ..self }
    }

    /// Set the expiration applied to every pushed element.
    pub fn expire_duration(self, expire_duration: u64) -> (r: QueueBuilder)
        ensures
            r@ == (QueueConfig { expire: Some(expire_duration), ..self@ }),
    {
        QueueBuilder { expire_duration: Some(expire_duration), ..self }
    }

    /// Bind the queue under the accumulated configuration.
    pub fn build(self) -> (r: Result<Queue, K2hError>)
        ensures
            r is Ok <==> self@.k2h != 0,
            r is Err ==> r == Err::<Queue, K2hError>(K2hError::QueueCreateFailed),
            r is Ok ==> r->Ok_0@ == (BaseModel {
                k2h: self@.k2h,
                fifo: self@.fifo,
                prefix: self@.prefix,
                password: self@.password,
                expire: self@.expire,
                handle: self@.k2h,
            }),
    {
        Queue::new(self.k2h, self.fifo, self.prefix, self.password, self.expire_duration)
    }
}

} // verus!
