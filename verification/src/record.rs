//! The bounded workflow record: a history window of the last accepted tasks
//! and a FIFO of tasks waiting for a node. Admission control rejects work
//! when the pending queue is full; the history evicts its oldest entry when
//! it is full.
//!
//! The record keeps this shape invariant: the history keys, in insertion
//! order, are exactly `order`, and `pending` is a suffix of `order`. With the
//! pending capacity at most the history capacity, every pending id therefore
//! still has its task in the history — the dispatcher can never pop an id
//! whose task was evicted.

use crate::kvmap::{kv_map, kv_unique, lemma_kv_contains, lemma_kv_index, lemma_kv_push,
    lemma_kv_remove, lemma_kv_update};
use crate::payload::WorkflowPayload;
use crate::task::{ResultView, TaskView, WorkflowResult, WorkflowTask};
use vstd::pervasive::unreached;
use vstd::prelude::*;

verus! {

/// Admission failures.
#[derive(Clone, Copy, PartialEq, Eq, Structural, Debug)]
pub enum WorkflowRecordError {
    PendingQueueFull,
}

impl WorkflowRecordError {
    /// The human-readable description of this error.
    pub fn message(&self) -> (r: String)
        ensures
            r@ == "pending queue is full"@,
    {
        String::from_str("pending queue is full")
    }
}

/// What a workflow admission reports back to the client: the task id.
#[derive(Clone, Debug)]
pub struct WorkflowResponse {
    pub id: String,
}

pub struct WorkflowRecord {
    inner: Vec<(String, WorkflowTask)>,
    capacity: usize,
    order: Vec<String>,
    pending: Vec<String>,
    pending_capacity: usize,
}

impl View for WorkflowRecord {
    type V = Map<Seq<char>, WorkflowTask>;

    closed spec fn view(&self) -> Map<Seq<char>, WorkflowTask> {
        kv_map(self.pairs())
    }
}

impl WorkflowRecord {
    pub closed spec fn pairs(&self) -> Seq<(Seq<char>, WorkflowTask)> {
        self.inner@.map_values(|p: (String, WorkflowTask)| (p.0@, p.1))
    }

    pub closed spec fn order_view(&self) -> Seq<Seq<char>> {
        self.order@.map_values(|s: String| s@)
    }

    pub closed spec fn pending_view(&self) -> Seq<Seq<char>> {
        self.pending@.map_values(|s: String| s@)
    }

    pub closed spec fn spec_capacity(&self) -> usize {
        self.capacity
    }

    pub closed spec fn spec_pending_capacity(&self) -> usize {
        self.pending_capacity
    }

    pub open spec fn wf(&self) -> bool {
        &&& kv_unique(self.pairs())
        &&& self.order_view().len() == self.pairs().len()
        &&& forall|i: int|
            0 <= i < self.pairs().len() ==> #[trigger] self.order_view()[i] == self.pairs()[i].0
        &&& self.pending_view().len() <= self.order_view().len()
        &&& self.pending_view() == self.order_view().skip(
            self.order_view().len() - self.pending_view().len(),
        )
        &&& self.pairs().len() <= self.spec_capacity()
        &&& self.pending_view().len() <= self.spec_pending_capacity()
        &&& self.spec_pending_capacity() <= self.spec_capacity()
        &&& 1 <= self.spec_capacity()
    }

    /// The capacity bounds hold in every well-formed state: the pending
    /// queue never exceeds its capacity and the history never exceeds its
    /// window. Every method takes and returns well-formed records.
    pub proof fn lemma_bounded(&self)
        requires
            self.wf(),
        ensures
            self.pending_view().len() <= self.spec_pending_capacity(),
            self.pairs().len() <= self.spec_capacity(),
    {
    }

    pub fn new(capacity: usize, pending_capacity: usize) -> (r: Self)
        requires
            1 <= capacity,
            pending_capacity <= capacity,
        ensures
            r.wf(),
            r@ == Map::<Seq<char>, WorkflowTask>::empty(),
            r.pending_view() == Seq::<Seq<char>>::empty(),
            r.order_view() == Seq::<Seq<char>>::empty(),
            r.spec_capacity() == capacity,
            r.spec_pending_capacity() == pending_capacity,
    {
        let r = WorkflowRecord {
            inner: Vec::new(),
            capacity,
            order: Vec::new(),
            pending: Vec::new(),
            pending_capacity,
        };
        proof {
            assert(r.pairs() =~= Seq::<(Seq<char>, WorkflowTask)>::empty());
            assert(r.order_view() =~= Seq::<Seq<char>>::empty());
            assert(r.pending_view() =~= Seq::<Seq<char>>::empty());
            assert(r.pending_view() =~= r.order_view().skip(0));
        }
        r
    }

    fn find(&self, id: &String) -> (r: Option<usize>)
        requires
            kv_unique(self.pairs()),
        ensures
            r matches Some(i) ==> i < self.pairs().len() && self.pairs()[i as int].0 == id@,
            r is None ==> !self@.contains_key(id@),
    {
        let n = self.inner.len();
        let mut i: usize = 0;
        while i < n
            invariant
                0 <= i <= n,
                n == self.inner@.len(),
                kv_unique(self.pairs()),
                forall|j: int| 0 <= j < i ==> (#[trigger] self.pairs()[j]).0 != id@,
            decreases n - i,
        {
            if self.inner[i].0 == *id {
                assert(self.pairs()[i as int].0 == id@);
                return Some(i);
            }
            assert(self.pairs()[i as int].0 != id@);
            i = i + 1;
        }
        proof {
            lemma_kv_contains(self.pairs(), id@);
        }
        None
    }

    /// Admission: reject when the pending queue is full, otherwise create the
    /// task, queue its id, and insert it into the history, evicting the
    /// oldest history entry if the history is at capacity.
    ///
    /// The caller supplies the fresh task id; admitted ids are fresh UUIDs,
    /// so an id never repeats an id still in the history.
    pub fn add(&mut self, payload: WorkflowPayload, id: String) -> (r: Result<
        (),
        WorkflowRecordError,
    >)
        requires
            old(self).wf(),
            !old(self)@.contains_key(id@),
        ensures
            final(self).wf(),
            final(self).spec_capacity() == old(self).spec_capacity(),
            final(self).spec_pending_capacity() == old(self).spec_pending_capacity(),
            r is Err <==> old(self).pending_view().len() == old(self).spec_pending_capacity(),
            r is Err ==> final(self)@ == old(self)@ && final(self).pending_view() == old(self).pending_view() && final(self).order_view() == old(self).order_view(),
            r is Ok ==> {
                &&& final(self).pending_view() == old(self).pending_view().push(id@)
                &&& final(self)@.contains_key(id@)
                &&& final(self)@[id@]@ == (TaskView {
                    id: id@,
                    payload: payload,
                    result: ResultView::Pending(0),
                })
                &&& old(self).pairs().len() < old(self).spec_capacity() ==> final(self)@ == old(self)@.insert(id@, final(self)@[id@]) && final(self).order_view() == old(self).order_view().push(id@)
                &&& old(self).pairs().len() == old(self).spec_capacity() ==> final(self)@ == old(self)@.remove(old(self).order_view()[0]).insert(id@, final(self)@[id@]) && final(self).order_view() == old(self).order_view().skip(1).push(id@)
            },
    {
        if self.pending.len() == self.pending_capacity {
            return Err(WorkflowRecordError::PendingQueueFull);
        }
        let task = WorkflowTask::new(payload, id.clone());
        self.pending.push(id.clone());
        proof {
            assert(self.pending_view() =~= old(self).pending_view().push(id@));
        }
        let ghost mid_order = self.order_view();
        if self.inner.len() == self.capacity {
            proof {
                lemma_kv_index(self.pairs(), 0);
                assert(self.pairs().remove(0) =~= self.pairs().skip(1));
                lemma_kv_remove(self.pairs(), 0);
            }
            self.order.remove(0);
            self.inner.remove(0);
            proof {
                assert(self.pairs() =~= old(self).pairs().remove(0));
                assert(self.order_view() =~= mid_order.skip(1));
            }
        }
        let ghost pre_pairs = self.pairs();
        let ghost pre_order = self.order_view();
        self.inner.push((id.clone(), task));
        self.order.push(id);
        proof {
            assert(self.pairs() =~= pre_pairs.push((id@, task)));
            assert(self.order_view() =~= pre_order.push(id@));
            lemma_kv_push(pre_pairs, id@, task);
            lemma_kv_contains(old(self).pairs(), id@);
            // uniqueness after the push: the new id was absent before
            assert forall|j: int| 0 <= j < pre_pairs.len() implies (#[trigger] pre_pairs[j]).0
                != id@ by {
                if old(self).pairs().len() == old(self).spec_capacity() {
                    assert(pre_pairs[j] == old(self).pairs()[j + 1]);
                } else {
                    assert(pre_pairs[j] == old(self).pairs()[j]);
                }
            }
            lemma_kv_index(self.pairs(), self.pairs().len() - 1);
            // the pending suffix survives: pending gained the id at the back,
            // order gained it at the back and may have lost its front, which
            // the pending part never reaches
            let p = old(self).pending_view().len() as int;
            let l = old(self).order_view().len() as int;
            assert(self.pending_view() =~= self.order_view().skip(
                self.order_view().len() - self.pending_view().len(),
            ));
        }
        Ok(())
    }

    pub fn get(&self, id: &str) -> (r: Option<&WorkflowTask>)
        requires
            self.wf(),
        ensures
            r is Some <==> self@.contains_key(id@),
            r matches Some(t) ==> *t == self@[id@],
    {
        let key = id.to_owned();
        match self.find(&key) {
            Some(i) => {
                proof {
                    lemma_kv_index(self.pairs(), i as int);
                }
                Some(&self.inner[i].1)
            },
            None => None,
        }
    }

    /// Stores a task's latest observed result; a no-op for an evicted id.
    pub fn set_result(&mut self, id: &str, result: WorkflowResult)
        requires
            old(self).wf(),
        ensures
            final(self).wf(),
            final(self).spec_capacity() == old(self).spec_capacity(),
            final(self).spec_pending_capacity() == old(self).spec_pending_capacity(),
            final(self).pending_view() == old(self).pending_view(),
            final(self).order_view() == old(self).order_view(),
            !old(self)@.contains_key(id@) ==> final(self)@ == old(self)@,
            old(self)@.contains_key(id@) ==> final(self)@.contains_key(id@) && final(self)@[id@]@ == (TaskView {
                id: old(self)@[id@]@.id,
                payload: old(self)@[id@]@.payload,
                result: result@,
            }) && final(self)@ == old(self)@.insert(id@, final(self)@[id@]),
    {
        let key = id.to_owned();
        match self.find(&key) {
            Some(i) => {
                proof {
                    lemma_kv_index(self.pairs(), i as int);
                }
                let ghost pre = self.pairs()[i as int].1;
                self.inner[i].1.set_result(result);
                proof {
                    let task = self.inner@[i as int].1;
                    assert(self.pairs() =~= old(self).pairs().update(i as int, (id@, task)));
                    lemma_kv_update(old(self).pairs(), i as int, task);
                    assert(self.order_view() =~= old(self).order_view());
                    assert(self.pending_view() =~= old(self).pending_view());
                    lemma_kv_index(self.pairs(), i as int);
                }
            },
            None => {},
        }
    }

    /// Pops the oldest pending id. By the record's shape invariant, the
    /// returned id's task is still present in the history.
    pub fn pop_pending(&mut self) -> (r: Option<String>)
        requires
            old(self).wf(),
        ensures
            final(self).wf(),
            final(self).spec_capacity() == old(self).spec_capacity(),
            final(self).spec_pending_capacity() == old(self).spec_pending_capacity(),
            r is None <==> old(self).pending_view().len() == 0,
            r is None ==> *final(self) == *old(self),
            r matches Some(id) ==> {
                &&& id@ == old(self).pending_view()[0]
                &&& final(self).pending_view() == old(self).pending_view().skip(1)
                &&& final(self)@ == old(self)@
                &&& final(self).order_view() == old(self).order_view()
                &&& final(self)@.contains_key(id@)
            },
    {
        if self.pending.len() == 0 {
            return None;
        }
        let id = self.pending.remove(0);
        proof {
            assert(self.pending_view() =~= old(self).pending_view().skip(1));
            assert(self.pairs() =~= old(self).pairs());
            assert(self.order_view() =~= old(self).order_view());
            let d = old(self).order_view().len() - old(self).pending_view().len();
            assert(old(self).pending_view()[0] == old(self).order_view()[d]);
            assert(old(self).order_view()[d] == old(self).pairs()[d].0);
            lemma_kv_index(old(self).pairs(), d);
            assert(self.pending_view() =~= self.order_view().skip(
                self.order_view().len() - self.pending_view().len(),
            ));
        }
        Some(id)
    }

    /// The oldest pending task, without removing it.
    pub fn top_pending(&self) -> (r: Option<&WorkflowTask>)
        requires
            self.wf(),
        ensures
            r is Some <==> self.pending_view().len() > 0,
            r matches Some(t) ==> *t == self@[self.pending_view()[0]],
    {
        if self.pending.len() == 0 {
            return None;
        }
        proof {
            let d = self.order_view().len() - self.pending_view().len();
            assert(self.pending_view()[0] == self.order_view()[d]);
            assert(self.order_view()[d] == self.pairs()[d].0);
            lemma_kv_index(self.pairs(), d);
        }
        match self.find(&self.pending[0]) {
            Some(i) => {
                proof {
                    lemma_kv_index(self.pairs(), i as int);
                }
                Some(&self.inner[i].1)
            },
            None => unreached(),
        }
    }

    /// How many tasks wait for a node.
    pub fn pending_len(&self) -> (r: usize)
        ensures
            r == self.pending_view().len(),
    {
        self.pending.len()
    }

    /// How many tasks the history holds.
    pub fn len(&self) -> (r: usize)
        ensures
            r == self.pairs().len(),
    {
        self.inner.len()
    }
}

} // verus!
