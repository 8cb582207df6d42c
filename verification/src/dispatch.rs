//! The dispatcher's claim step: peek the oldest pending workflow, claim an
//! idle node, and only then dequeue the workflow. Peeking before picking
//! means a pending task is never lost when no node is free; picking before
//! popping keeps the queue depth visible to clients until an executor is
//! about to run. The caller runs the executor for the returned pair and marks
//! the node idle again afterwards.

use crate::cluster::{NodeEntryView, NodeState, Status};
use crate::record::WorkflowRecord;
use vstd::prelude::*;

verus! {

/// A node the picker may claim: present and idle.
pub open spec fn pick_eligible(m: Map<Seq<char>, NodeEntryView>, u: Seq<char>) -> bool {
    m.contains_key(u) && m[u].status is Idle
}

/// A node that stands busy is not eligible; with `NodeState::pick` claiming
/// only eligible nodes in one exclusive section, no two dispatched tasks run
/// on the same node: a node stays claimed from its pick until `set_idle`.
pub proof fn lemma_busy_node_not_eligible(m: Map<Seq<char>, NodeEntryView>, u: Seq<char>)
    requires
        m.contains_key(u),
        m[u].status is Busy,
    ensures
        !pick_eligible(m, u),
{
}

/// The node a pick just claimed is not eligible for any later pick until it
/// is set idle again, whatever hint was stored on it.
pub proof fn lemma_picked_node_not_eligible(
    m: Map<Seq<char>, NodeEntryView>,
    u: Seq<char>,
    hint: Seq<(Seq<char>, Seq<char>)>,
)
    ensures
        !pick_eligible(m.insert(u, NodeEntryView { status: Status::Busy, cache: hint }), u),
{
}

/// Removing a fleet entry changes nothing exactly when the entry was busy at
/// the moment of the call.
pub proof fn lemma_remove_unchanged_iff_busy(m: Map<Seq<char>, NodeEntryView>, u: Seq<char>)
    requires
        m.contains_key(u),
    ensures
        ((if m.contains_key(u) && !(m[u].status is Busy) {
            m.remove(u)
        } else {
            m
        }) == m) <==> m[u].status is Busy,
{
    if !(m[u].status is Busy) {
        assert(!m.remove(u).contains_key(u));
        assert(m.remove(u) != m);
    }
}

/// One dispatcher round. Returns the claimed `(task id, node URL)`, or
/// `None` — leaving both structures unchanged — when nothing is pending or
/// no node is idle.
pub fn dispatch_step(record: &mut WorkflowRecord, fleet: &mut NodeState) -> (r: Option<
    (String, String),
>)
    requires
        old(record).wf(),
        old(fleet).wf(),
    ensures
        final(record).wf(),
        final(fleet).wf(),
        final(record).spec_capacity() == old(record).spec_capacity(),
        final(record).spec_pending_capacity() == old(record).spec_pending_capacity(),
        r is None ==> *final(record) == *old(record) && final(fleet)@ == old(fleet)@,
        r is None ==> old(record).pending_view().len() == 0 || (forall|k: Seq<char>|
            old(fleet)@.contains_key(k) ==> !((#[trigger] old(fleet)@[k]).status is Idle)),
        r matches Some(p) ==> {
            &&& old(record).pending_view().len() > 0
            &&& p.0@ == old(record).pending_view()[0]
            &&& final(record).pending_view() == old(record).pending_view().skip(1)
            &&& final(record)@ == old(record)@
            &&& final(record).order_view() == old(record).order_view()
            &&& final(record)@.contains_key(p.0@)
            &&& pick_eligible(old(fleet)@, p.1@)
            &&& final(fleet)@ == old(fleet)@.insert(
                p.1@,
                NodeEntryView { status: Status::Busy, cache: Seq::empty() },
            )
        },
{
    let cache_map = match record.top_pending() {
        Some(task) => task.payload().cache_map(),
        None => {
            return None;
        },
    };
    let node = match fleet.pick(&cache_map) {
        Some(node) => node,
        None => {
            return None;
        },
    };
    let id = match record.pop_pending() {
        Some(id) => id,
        None => vstd::pervasive::unreached(),
    };
    Some((id, node))
}

} // verus!
