//! The node fleet: a registry of backend URLs with a status each, and the
//! atomic pick-idle-and-mark-busy step the dispatcher relies on.

use crate::kvmap::{kv_map, kv_unique, lemma_kv_contains, lemma_kv_index, lemma_kv_push,
    lemma_kv_remove, lemma_kv_update};
use vstd::prelude::*;

verus! {

/// Lifecycle of a backend node. The scheduler moves nodes between `Idle` and
/// `Busy`; the health prober demotes to `Offline` and promotes back to `Idle`.
#[derive(Clone, Copy, PartialEq, Eq, Structural, Debug)]
pub enum Status {
    Idle,
    Busy,
    Offline,
}

/// Status of one node plus the opaque cache hint stored by the picker.
#[derive(Clone, Debug)]
pub struct NodeStatus {
    status: Status,
    cache: Vec<(String, String)>,
}

/// Mathematical image of a [`NodeStatus`].
pub ghost struct NodeEntryView {
    pub status: Status,
    pub cache: Seq<(Seq<char>, Seq<char>)>,
}

pub open spec fn cache_view(c: Seq<(String, String)>) -> Seq<(Seq<char>, Seq<char>)> {
    c.map_values(|p: (String, String)| (p.0@, p.1@))
}

impl View for NodeStatus {
    type V = NodeEntryView;

    closed spec fn view(&self) -> NodeEntryView {
        NodeEntryView { status: self.status, cache: cache_view(self.cache@) }
    }
}

impl NodeStatus {
    pub fn status(&self) -> (r: Status)
        ensures
            r == self@.status,
    {
        self.status
    }

    pub fn cache(&self) -> (r: &Vec<(String, String)>)
        ensures
            cache_view(r@) == self@.cache,
    {
        &self.cache
    }
}

impl Default for NodeStatus {
    /// A fresh entry: idle, with no cache hint.
    fn default() -> (r: Self)
        ensures
            r@ == (NodeEntryView { status: Status::Idle, cache: Seq::<(Seq<char>, Seq<char>)>::empty() }),
    {
        let r = NodeStatus { status: Status::Idle, cache: Vec::new() };
        proof {
            assert(cache_view(r.cache@) =~= Seq::<(Seq<char>, Seq<char>)>::empty());
        }
        r
    }
}

/// The fleet. Modeled as a map from node URL to entry; the vector order is an
/// implementation detail (the picker scans it, which refines the spec's
/// "unspecified order").
#[derive(Clone, Debug)]
pub struct NodeState {
    nodes: Vec<(String, NodeStatus)>,
}

impl View for NodeState {
    type V = Map<Seq<char>, NodeEntryView>;

    closed spec fn view(&self) -> Map<Seq<char>, NodeEntryView> {
        kv_map(self.pairs())
    }
}

impl NodeState {
    pub closed spec fn pairs(&self) -> Seq<(Seq<char>, NodeEntryView)> {
        self.nodes@.map_values(|p: (String, NodeStatus)| (p.0@, p.1@))
    }

    pub open spec fn wf(&self) -> bool {
        kv_unique(self.pairs())
    }

    pub fn new() -> (r: Self)
        ensures
            r.wf(),
            r@ == Map::<Seq<char>, NodeEntryView>::empty(),
    {
        let r = NodeState { nodes: Vec::new() };
        proof {
            assert(r.pairs() =~= Seq::<(Seq<char>, NodeEntryView)>::empty());
        }
        r
    }

    fn find(&self, url: &String) -> (r: Option<usize>)
        requires
            self.wf(),
        ensures
            r matches Some(i) ==> i < self.pairs().len() && self.pairs()[i as int].0 == url@,
            r is None ==> !self@.contains_key(url@),
    {
        let n = self.nodes.len();
        let mut i: usize = 0;
        while i < n
            invariant
                0 <= i <= n,
                n == self.nodes@.len(),
                self.wf(),
                forall|j: int| 0 <= j < i ==> (#[trigger] self.pairs()[j]).0 != url@,
            decreases n - i,
        {
            if self.nodes[i].0 == *url {
                assert(self.pairs()[i as int].0 == url@);
                return Some(i);
            }
            assert(self.pairs()[i as int].0 != url@);
            i = i + 1;
        }
        proof {
            lemma_kv_contains(self.pairs(), url@);
        }
        None
    }

    /// Registers a node; a URL already present keeps its current entry.
    pub fn add(&mut self, url: &str)
        requires
            old(self).wf(),
        ensures
            final(self).wf(),
            final(self)@ == if old(self)@.contains_key(url@) {
                old(self)@
            } else {
                old(self)@.insert(
                    url@,
                    NodeEntryView { status: Status::Idle, cache: Seq::empty() },
                )
            },
    {
        let key = url.to_owned();
        match self.find(&key) {
            Some(i) => {
                proof {
                    lemma_kv_index(self.pairs(), i as int);
                }
            },
            None => {
                let entry = NodeStatus::default();
                self.nodes.push((key, entry));
                proof {
                    assert(self.pairs() =~= old(self).pairs().push(
                        (url@, NodeEntryView { status: Status::Idle, cache: Seq::empty() }),
                    ));
                    lemma_kv_push(
                        old(self).pairs(),
                        url@,
                        NodeEntryView { status: Status::Idle, cache: Seq::empty() },
                    );
                    lemma_kv_contains(old(self).pairs(), url@);
                }
            },
        }
    }

    pub fn get(&self, url: &str) -> (r: Option<&NodeStatus>)
        requires
            self.wf(),
        ensures
            r is Some <==> self@.contains_key(url@),
            r matches Some(st) ==> st@ == self@[url@],
    {
        let key = url.to_owned();
        match self.find(&key) {
            Some(i) => {
                proof {
                    lemma_kv_index(self.pairs(), i as int);
                }
                Some(&self.nodes[i].1)
            },
            None => None,
        }
    }

    /// All entries, for iteration by callers.
    pub fn get_all(&self) -> (r: &Vec<(String, NodeStatus)>)
        requires
            self.wf(),
        ensures
            r@.len() == self.pairs().len(),
            forall|i: int|
                0 <= i < r@.len() ==> (#[trigger] r@[i]).0@ == self.pairs()[i].0 && r@[i].1@
                    == self.pairs()[i].1,
            forall|i: int|
                0 <= i < r@.len() ==> self@.contains_key((#[trigger] r@[i]).0@) && self@[r@[i].0@]
                    == r@[i].1@,
    {
        proof {
            assert forall|i: int| 0 <= i < self.nodes@.len() implies self@.contains_key(
                (#[trigger] self.nodes@[i]).0@,
            ) && self@[self.nodes@[i].0@] == self.nodes@[i].1@ by {
                lemma_kv_index(self.pairs(), i);
            }
        }
        &self.nodes
    }

    /// Deregisters a node, unless it is busy: a busy node's entry is kept
    /// unchanged, so in-flight work keeps its claim.
    pub fn remove(&mut self, url: &str)
        requires
            old(self).wf(),
        ensures
            final(self).wf(),
            final(self)@ == if old(self)@.contains_key(url@) && !(old(self)@[url@].status
                is Busy) {
                old(self)@.remove(url@)
            } else {
                old(self)@
            },
    {
        let key = url.to_owned();
        match self.find(&key) {
            Some(i) => {
                proof {
                    lemma_kv_index(self.pairs(), i as int);
                }
                match self.nodes[i].1.status {
                    Status::Busy => {},
                    _ => {
                        self.nodes.remove(i);
                        proof {
                            assert(self.pairs() =~= old(self).pairs().remove(i as int));
                            lemma_kv_remove(old(self).pairs(), i as int);
                        }
                    },
                }
            },
            None => {},
        }
    }

    fn set_status(&mut self, url: &String, status: Status)
        requires
            old(self).wf(),
        ensures
            final(self).wf(),
            final(self)@ == if old(self)@.contains_key(url@) {
                old(self)@.insert(
                    url@,
                    NodeEntryView { status: status, cache: old(self)@[url@].cache },
                )
            } else {
                old(self)@
            },
    {
        match self.find(url) {
            Some(i) => {
                proof {
                    lemma_kv_index(self.pairs(), i as int);
                }
                let ghost entry = self.pairs()[i as int].1;
                self.nodes[i].1.status = status;
                proof {
                    assert(self.pairs() =~= old(self).pairs().update(
                        i as int,
                        (url@, NodeEntryView { status: status, cache: entry.cache }),
                    ));
                    lemma_kv_update(
                        old(self).pairs(),
                        i as int,
                        NodeEntryView { status: status, cache: entry.cache },
                    );
                }
            },
            None => {},
        }
    }

    pub fn set_busy(&mut self, url: &str)
        requires
            old(self).wf(),
        ensures
            final(self).wf(),
            final(self)@ == if old(self)@.contains_key(url@) {
                old(self)@.insert(
                    url@,
                    NodeEntryView { status: Status::Busy, cache: old(self)@[url@].cache },
                )
            } else {
                old(self)@
            },
    {
        let key = url.to_owned();
        self.set_status(&key, Status::Busy);
    }

    pub fn set_idle(&mut self, url: &str)
        requires
            old(self).wf(),
        ensures
            final(self).wf(),
            final(self)@ == if old(self)@.contains_key(url@) {
                old(self)@.insert(
                    url@,
                    NodeEntryView { status: Status::Idle, cache: old(self)@[url@].cache },
                )
            } else {
                old(self)@
            },
    {
        let key = url.to_owned();
        self.set_status(&key, Status::Idle);
    }

    pub fn set_offline(&mut self, url: &str)
        requires
            old(self).wf(),
        ensures
            final(self).wf(),
            final(self)@ == if old(self)@.contains_key(url@) {
                old(self)@.insert(
                    url@,
                    NodeEntryView { status: Status::Offline, cache: old(self)@[url@].cache },
                )
            } else {
                old(self)@
            },
    {
        let key = url.to_owned();
        self.set_status(&key, Status::Offline);
    }

    /// Stores the picker's cache hint on a node.
    pub fn set_cache(&mut self, url: &str, cache: &Vec<(String, String)>)
        requires
            old(self).wf(),
        ensures
            final(self).wf(),
            final(self)@ == if old(self)@.contains_key(url@) {
                old(self)@.insert(
                    url@,
                    NodeEntryView {
                        status: old(self)@[url@].status,
                        cache: cache_view(cache@),
                    },
                )
            } else {
                old(self)@
            },
    {
        let key = url.to_owned();
        match self.find(&key) {
            Some(i) => {
                proof {
                    lemma_kv_index(self.pairs(), i as int);
                }
                let ghost st = self.pairs()[i as int].1.status;
                self.nodes[i].1.cache = clone_cache(cache);
                proof {
                    assert(self.pairs() =~= old(self).pairs().update(
                        i as int,
                        (url@, NodeEntryView { status: st, cache: cache_view(cache@) }),
                    ));
                    lemma_kv_update(
                        old(self).pairs(),
                        i as int,
                        NodeEntryView { status: st, cache: cache_view(cache@) },
                    );
                }
            },
            None => {},
        }
    }

    /// The atomic claim step: finds an idle node, marks it busy and stores the
    /// cache hint, all in one exclusive section. Returns `None`, and changes
    /// nothing, when no node is idle.
    pub fn pick(&mut self, target: &Vec<(String, String)>) -> (r: Option<String>)
        requires
            old(self).wf(),
        ensures
            final(self).wf(),
            r matches Some(u) ==> old(self)@.contains_key(u@) && old(self)@[u@].status is Idle
                && final(self)@ == old(self)@.insert(
                u@,
                NodeEntryView { status: Status::Busy, cache: cache_view(target@) },
            ),
            r is None ==> final(self)@ == old(self)@ && (forall|k: Seq<char>|
                old(self)@.contains_key(k) ==> !((#[trigger] old(self)@[k]).status is Idle)),
    {
        let n = self.nodes.len();
        let mut i: usize = 0;
        while i < n
            invariant
                0 <= i <= n,
                n == self.nodes@.len(),
                self.wf(),
                self == old(self),
                forall|j: int| 0 <= j < i ==> !((#[trigger] self.pairs()[j]).1.status is Idle),
            decreases n - i,
        {
            let idle = match self.nodes[i].1.status {
                Status::Idle => true,
                _ => false,
            };
            if idle {
                let url = self.nodes[i].0.clone();
                proof {
                    lemma_kv_index(self.pairs(), i as int);
                }
                self.nodes[i].1.status = Status::Busy;
                self.nodes[i].1.cache = clone_cache(target);
                proof {
                    assert(self.pairs() =~= old(self).pairs().update(
                        i as int,
                        (url@, NodeEntryView { status: Status::Busy, cache: cache_view(target@) }),
                    ));
                    lemma_kv_update(
                        old(self).pairs(),
                        i as int,
                        NodeEntryView { status: Status::Busy, cache: cache_view(target@) },
                    );
                }
                return Some(url);
            }
            assert(!(self.pairs()[i as int].1.status is Idle));
            i = i + 1;
        }
        proof {
            assert forall|k: Seq<char>| self@.contains_key(k) implies !((#[trigger] self@[k]).status
                is Idle) by {
                lemma_kv_contains(self.pairs(), k);
                let j = choose|j: int| 0 <= j < self.pairs().len() && (#[trigger] self.pairs()[j]).0
                    == k;
                lemma_kv_index(self.pairs(), j);
            }
        }
        None
    }
}

fn clone_cache(c: &Vec<(String, String)>) -> (r: Vec<(String, String)>)
    ensures
        cache_view(r@) == cache_view(c@),
{
    let mut r: Vec<(String, String)> = Vec::new();
    let n = c.len();
    let mut i: usize = 0;
    while i < n
        invariant
            0 <= i <= n,
            n == c@.len(),
            r@.len() == i,
            forall|j: int| 0 <= j < i ==> (#[trigger] r@[j]).0@ == c@[j].0@ && r@[j].1@ == c@[j].1@,
        decreases n - i,
    {
        r.push((c[i].0.clone(), c[i].1.clone()));
        i = i + 1;
    }
    proof {
        assert(cache_view(r@) =~= cache_view(c@));
    }
    r
}

} // verus!
