//! Bookkeeping for the liveness loop: per-node failure counters, three-strike
//! demotion to `Offline`, and promotion back to `Idle` on the first success
//! that follows a demotion. The probe itself (an HTTP GET per node) happens
//! outside the library; each outcome is handed in as a boolean.

use crate::cluster::{NodeEntryView, NodeState, Status};
use crate::kvmap::{kv_map, kv_unique, lemma_kv_contains, lemma_kv_index, lemma_kv_push,
    lemma_kv_remove, lemma_kv_update};
use vstd::prelude::*;

verus! {

/// Number of consecutive failed probes at which a node is demoted.
pub const DEMOTION_STRIKES: u32 = 3;

/// The prober's process-local state: how many consecutive probes have failed
/// per node URL. Absence means no failure since the last success.
pub struct HealthMonitor {
    counts: Vec<(String, u32)>,
}

impl View for HealthMonitor {
    type V = Map<Seq<char>, u32>;

    closed spec fn view(&self) -> Map<Seq<char>, u32> {
        kv_map(self.pairs())
    }
}

impl HealthMonitor {
    pub closed spec fn pairs(&self) -> Seq<(Seq<char>, u32)> {
        self.counts@.map_values(|p: (String, u32)| (p.0@, p.1))
    }

    pub open spec fn wf(&self) -> bool {
        kv_unique(self.pairs())
    }

    /// The failure count recorded for a URL; zero when none is recorded.
    pub open spec fn spec_count(&self, u: Seq<char>) -> u32 {
        if self@.contains_key(u) {
            self@[u]
        } else {
            0
        }
    }

    pub fn new() -> (r: Self)
        ensures
            r.wf(),
            r@ == Map::<Seq<char>, u32>::empty(),
    {
        let r = HealthMonitor { counts: Vec::new() };
        proof {
            assert(r.pairs() =~= Seq::<(Seq<char>, u32)>::empty());
        }
        r
    }

    fn find(&self, url: &String) -> (r: Option<usize>)
        requires
            self.wf(),
        ensures
            r matches Some(i) ==> i < self.pairs().len() && self.pairs()[i as int].0 == url@,
            r is None ==> !self@.contains_key(url@),
    {
        let n = self.counts.len();
        let mut i: usize = 0;
        while i < n
            invariant
                0 <= i <= n,
                n == self.counts@.len(),
                self.wf(),
                forall|j: int| 0 <= j < i ==> (#[trigger] self.pairs()[j]).0 != url@,
            decreases n - i,
        {
            if self.counts[i].0 == *url {
                assert(self.pairs()[i as int].0 == url@);
                return Some(i);
            }
            assert(self.pairs()[i as int].0 != url@);
            i = i + 1;
        }
        proof {
            lemma_kv_contains(self.pairs(), url@);
        }
        None
    }

    /// Reads the recorded count, for callers and tests.
    pub fn count(&self, url: &str) -> (r: u32)
        requires
            self.wf(),
        ensures
            r == self.spec_count(url@),
    {
        let key = url.to_owned();
        match self.find(&key) {
            Some(i) => {
                proof {
                    lemma_kv_index(self.pairs(), i as int);
                }
                self.counts[i].1
            },
            None => 0,
        }
    }

    /// Records one probe outcome for `url` and applies the fleet transition.
    ///
    /// On success the counter is cleared; the node is promoted to `Idle` only
    /// when the cleared count had reached the demotion threshold and the node
    /// stands `Offline` — a node that merely flapped returns silently. On
    /// failure the counter grows by one (saturating), and reaching the
    /// threshold demotes the node to `Offline`.
    pub fn on_probe_result(&mut self, fleet: &mut NodeState, url: &str, ok: bool)
        requires
            old(self).wf(),
            old(fleet).wf(),
        ensures
            final(self).wf(),
            final(fleet).wf(),
            ok ==> final(self)@ == old(self)@.remove(url@),
            ok ==> final(fleet)@ == if old(self)@.contains_key(url@) && old(self)@[url@]
                >= DEMOTION_STRIKES && old(fleet)@.contains_key(url@) && old(fleet)@[url@].status
                is Offline {
                old(fleet)@.insert(
                    url@,
                    NodeEntryView { status: Status::Idle, cache: old(fleet)@[url@].cache },
                )
            } else {
                old(fleet)@
            },
            !ok ==> {
                let c = if old(self)@.contains_key(url@) {
                    old(self)@[url@]
                } else {
                    0
                };
                let c2: u32 = if c < u32::MAX {
                    (c + 1) as u32
                } else {
                    c
                };
                final(self)@ == old(self)@.insert(url@, c2) && final(fleet)@ == if c2
                    >= DEMOTION_STRIKES && old(fleet)@.contains_key(url@) {
                    old(fleet)@.insert(
                        url@,
                        NodeEntryView { status: Status::Offline, cache: old(fleet)@[url@].cache },
                    )
                } else {
                    old(fleet)@
                }
            },
    {
        let key = url.to_owned();
        if ok {
            match self.find(&key) {
                Some(i) => {
                    proof {
                        lemma_kv_index(self.pairs(), i as int);
                    }
                    let c = self.counts[i].1;
                    self.counts.remove(i);
                    proof {
                        assert(self.pairs() =~= old(self).pairs().remove(i as int));
                        lemma_kv_remove(old(self).pairs(), i as int);
                    }
                    if c >= DEMOTION_STRIKES {
                        let offline = match fleet.get(url) {
                            Some(st) => match st.status() {
                                Status::Offline => true,
                                _ => false,
                            },
                            None => false,
                        };
                        if offline {
                            fleet.set_idle(url);
                        }
                    }
                },
                None => {
                    proof {
                        assert(old(self)@.remove(url@) =~= old(self)@);
                    }
                },
            }
        } else {
            let c = match self.find(&key) {
                Some(i) => {
                    proof {
                        lemma_kv_index(self.pairs(), i as int);
                    }
                    self.counts[i].1
                },
                None => 0,
            };
            let c2 = if c < u32::MAX {
                c + 1
            } else {
                c
            };
            match self.find(&key) {
                Some(i) => {
                    self.counts[i].1 = c2;
                    proof {
                        assert(self.pairs() =~= old(self).pairs().update(
                            i as int,
                            (url@, c2),
                        ));
                        lemma_kv_update(old(self).pairs(), i as int, c2);
                    }
                },
                None => {
                    self.counts.push((key, c2));
                    proof {
                        assert(self.pairs() =~= old(self).pairs().push((url@, c2)));
                        lemma_kv_push(old(self).pairs(), url@, c2);
                        lemma_kv_contains(old(self).pairs(), url@);
                    }
                },
            }
            if c2 >= DEMOTION_STRIKES {
                let present = match fleet.get(url) {
                    Some(_) => true,
                    None => false,
                };
                if present {
                    fleet.set_offline(url);
                }
            }
        }
    }
}

} // verus!
