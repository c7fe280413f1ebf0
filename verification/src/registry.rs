//! The capture registry: a mapping from unit-of-work identity to the
//! buffer of records captured for it.
//!
//! The registry is the coordination point between the router, which
//! appends, and the recorder handles, which register, drain and remove
//! buffers. It is a plain value with its own contracts; an embedding that
//! shares one registry between threads guards it with a lock of its own.

use vstd::prelude::*;

use crate::alist::assoc_fold;
use crate::alist::distinct_keys;
use crate::alist::lemma_assoc_fold_dom;
use crate::alist::lemma_assoc_fold_index;
use crate::alist::lemma_assoc_fold_push;
use crate::alist::lemma_assoc_fold_remove;
use crate::alist::lemma_assoc_fold_update;
use crate::record::EventLog;
use crate::record::LogView;

verus! {

/// A buffer of captured records seen through their views.
pub open spec fn logs_view(s: Seq<EventLog>) -> Seq<LogView> {
    s.map_values(|e: EventLog| e@)
}

/// The registry entries seen as identity/buffer-view pairs.
spec fn entries_view(s: Seq<(u64, Vec<EventLog>)>) -> Seq<(u64, Seq<LogView>)> {
    s.map_values(|p: (u64, Vec<EventLog>)| (p.0, logs_view(p.1@)))
}

/// Mapping from unit-of-work identity to its capture buffer; at most one
/// entry per identity.
pub struct CaptureRegistry {
    entries: Vec<(u64, Vec<EventLog>)>,
}

impl View for CaptureRegistry {
    type V = Map<u64, Seq<LogView>>;

    closed spec fn view(&self) -> Map<u64, Seq<LogView>> {
        assoc_fold(entries_view(self.entries@))
    }
}

impl CaptureRegistry {
    /// Validity: at most one entry per identity.
    pub closed spec fn wf(&self) -> bool {
        distinct_keys(entries_view(self.entries@))
    }

    /// An empty registry: no identity has a buffer.
    pub fn new() -> (r: CaptureRegistry)
        ensures
            r.wf(),
            r@ == Map::<u64, Seq<LogView>>::empty(),
    {
        let r = CaptureRegistry { entries: Vec::new() };
        proof {
            assert(entries_view(r.entries@) =~= Seq::<(u64, Seq<LogView>)>::empty());
        }
        r
    }

    /// The position of the entry for `id`, if one exists.
    fn position(&self, id: u64) -> (r: Option<usize>)
        ensures
            match r {
                Some(j) => j < self.entries@.len() && self.entries@[j as int].0 == id,
                None => forall|t: int| 0 <= t < self.entries@.len() ==> self.entries@[t].0 != id,
            },
    {
        let mut i: usize = 0;
        while i < self.entries.len()
            invariant
                i <= self.entries@.len(),
                forall|t: int| 0 <= t < i ==> self.entries@[t].0 != id,
            decreases self.entries@.len() - i,
        {
            if self.entries[i].0 == id {
                return Some(i);
            }
            i = i + 1;
        }
        None
    }

    /// Whether `id` currently has a registered buffer.
    pub fn contains(&self, id: u64) -> (r: bool)
        ensures
            r == self@.contains_key(id),
    {
        proof {
            lemma_assoc_fold_dom(entries_view(self.entries@), id);
        }
        match self.position(id) {
            Some(j) => {
                proof {
                    assert(entries_view(self.entries@)[j as int].0 == id);
                }
                true
            },
            None => {
                proof {
                    assert(forall|t: int|
                        0 <= t < entries_view(self.entries@).len() ==> entries_view(
                            self.entries@,
                        )[t].0 != id);
                }
                false
            },
        }
    }

    /// A reference to the buffer registered for `id`, if any.
    pub fn lookup(&self, id: u64) -> (r: Option<&Vec<EventLog>>)
        requires
            self.wf(),
        ensures
            match r {
                Some(buf) => self@.contains_key(id) && logs_view(buf@) == self@[id],
                None => !self@.contains_key(id),
            },
    {
        proof {
            lemma_assoc_fold_dom(entries_view(self.entries@), id);
        }
        match self.position(id) {
            Some(j) => {
                proof {
                    assert(entries_view(self.entries@)[j as int].0 == id);
                    lemma_assoc_fold_index(entries_view(self.entries@), j as int);
                }
                Some(&self.entries[j].1)
            },
            None => {
                proof {
                    assert(forall|t: int|
                        0 <= t < entries_view(self.entries@).len() ==> entries_view(
                            self.entries@,
                        )[t].0 != id);
                }
                None
            },
        }
    }

    /// Insert, or overwrite, the buffer registered for `id`.
    pub fn register(&mut self, id: u64, buffer: Vec<EventLog>)
        requires
            old(self).wf(),
        ensures
            final(self).wf(),
            final(self)@ == old(self)@.insert(id, logs_view(buffer@)),
    {
        let ghost bv = logs_view(buffer@);
        let ghost before = self.entries@;
        match self.position(id) {
            Some(j) => {
                proof {
                    assert(entries_view(before)[j as int].0 == id);
                    assert forall|t: int|
                        j < t < before.len() implies entries_view(before)[t].0 != id by {
                        assert(entries_view(before)[j as int].0 != entries_view(before)[t].0);
                    }
                }
                let _dropped = self.entries.remove(j);
                self.entries.insert(j, (id, buffer));
                proof {
                    assert(self.entries@ =~= before.update(j as int, self.entries@[j as int]));
                    assert(entries_view(self.entries@) =~= entries_view(before).update(
                        j as int,
                        (id, bv),
                    ));
                    lemma_assoc_fold_update(entries_view(before), j as int, id, bv);
                    assert(distinct_keys(entries_view(self.entries@)));
                }
            },
            None => {
                self.entries.push((id, buffer));
                proof {
                    assert(entries_view(self.entries@) =~= entries_view(before).push((id, bv)));
                    lemma_assoc_fold_push(entries_view(before), id, bv);
                    assert(distinct_keys(entries_view(self.entries@)));
                }
            },
        }
    }

    /// Remove the entry for `id`; a no-op when none is registered.
    pub fn unregister(&mut self, id: u64)
        requires
            old(self).wf(),
        ensures
            final(self).wf(),
            final(self)@ == old(self)@.remove(id),
    {
        let ghost before = self.entries@;
        match self.position(id) {
            Some(j) => {
                let _dropped = self.entries.remove(j);
                proof {
                    assert(entries_view(before)[j as int].0 == id);
                    assert(entries_view(self.entries@) =~= entries_view(before).remove(j as int));
                    lemma_assoc_fold_remove(entries_view(before), j as int);
                    assert(distinct_keys(entries_view(self.entries@)));
                }
            },
            None => {
                proof {
                    assert(forall|t: int|
                        0 <= t < entries_view(before).len() ==> entries_view(before)[t].0 != id);
                    lemma_assoc_fold_dom(entries_view(before), id);
                    assert(self@ =~= old(self)@.remove(id));
                }
            },
        }
    }

    /// Append a record to the buffer registered for `id`; report whether
    /// one was registered, and change nothing when none was.
    pub fn append(&mut self, id: u64, e: EventLog) -> (r: bool)
        requires
            old(self).wf(),
        ensures
            final(self).wf(),
            r == old(self)@.contains_key(id),
            r ==> final(self)@ == old(self)@.insert(id, old(self)@[id].push(e@)),
            !r ==> final(self)@ == old(self)@,
    {
        proof {
            lemma_assoc_fold_dom(entries_view(self.entries@), id);
        }
        let ghost before = self.entries@;
        let ghost ev = e@;
        match self.position(id) {
            Some(j) => {
                proof {
                    assert(entries_view(before)[j as int].0 == id);
                    lemma_assoc_fold_index(entries_view(before), j as int);
                    assert forall|t: int|
                        j < t < before.len() implies entries_view(before)[t].0 != id by {
                        assert(entries_view(before)[j as int].0 != entries_view(before)[t].0);
                    }
                }
                let (entry_id, mut buffer) = self.entries.remove(j);
                let ghost bv = logs_view(buffer@);
                buffer.push(e);
                proof {
                    assert(logs_view(buffer@) =~= bv.push(ev));
                }
                self.entries.insert(j, (entry_id, buffer));
                proof {
                    assert(self.entries@ =~= before.update(j as int, self.entries@[j as int]));
                    assert(entries_view(self.entries@) =~= entries_view(before).update(
                        j as int,
                        (id, bv.push(ev)),
                    ));
                    lemma_assoc_fold_update(entries_view(before), j as int, id, bv.push(ev));
                    assert(distinct_keys(entries_view(self.entries@)));
                }
                true
            },
            None => {
                proof {
                    assert(forall|t: int|
                        0 <= t < entries_view(before).len() ==> entries_view(before)[t].0 != id);
                }
                false
            },
        }
    }

    /// Hand out the buffer registered for `id` and leave a fresh empty one
    /// in its place; an empty result and no change when none is registered.
    pub fn drain(&mut self, id: u64) -> (r: Vec<EventLog>)
        requires
            old(self).wf(),
        ensures
            final(self).wf(),
            old(self)@.contains_key(id) ==> logs_view(r@) == old(self)@[id] && final(self)@ == old(
                self,
            )@.insert(id, Seq::<LogView>::empty()),
            !old(self)@.contains_key(id) ==> r@ == Seq::<EventLog>::empty() && final(self)@ == old(
                self,
            )@,
    {
        proof {
            lemma_assoc_fold_dom(entries_view(self.entries@), id);
        }
        let ghost before = self.entries@;
        match self.position(id) {
            Some(j) => {
                proof {
                    assert(entries_view(before)[j as int].0 == id);
                    lemma_assoc_fold_index(entries_view(before), j as int);
                    assert forall|t: int|
                        j < t < before.len() implies entries_view(before)[t].0 != id by {
                        assert(entries_view(before)[j as int].0 != entries_view(before)[t].0);
                    }
                }
                let (entry_id, buffer) = self.entries.remove(j);
                self.entries.insert(j, (entry_id, Vec::new()));
                proof {
                    assert(logs_view(Seq::<EventLog>::empty()) =~= Seq::<LogView>::empty());
                    assert(self.entries@ =~= before.update(j as int, self.entries@[j as int]));
                    assert(entries_view(self.entries@) =~= entries_view(before).update(
                        j as int,
                        (id, Seq::<LogView>::empty()),
                    ));
                    lemma_assoc_fold_update(
                        entries_view(before),
                        j as int,
                        id,
                        Seq::<LogView>::empty(),
                    );
                    assert(distinct_keys(entries_view(self.entries@)));
                }
                buffer
            },
            None => {
                proof {
                    assert(forall|t: int|
                        0 <= t < entries_view(before).len() ==> entries_view(before)[t].0 != id);
                }
                Vec::new()
            },
        }
    }

    /// Hand out the buffer registered for `id` and remove its entry; an
    /// empty result when none is registered. Either way `id` is
    /// unregistered afterwards.
    pub fn take(&mut self, id: u64) -> (r: Vec<EventLog>)
        requires
            old(self).wf(),
        ensures
            final(self).wf(),
            old(self)@.contains_key(id) ==> logs_view(r@) == old(self)@[id],
            !old(self)@.contains_key(id) ==> r@ == Seq::<EventLog>::empty(),
            final(self)@ == old(self)@.remove(id),
    {
        proof {
            lemma_assoc_fold_dom(entries_view(self.entries@), id);
        }
        let ghost before = self.entries@;
        match self.position(id) {
            Some(j) => {
                proof {
                    assert(entries_view(before)[j as int].0 == id);
                    lemma_assoc_fold_index(entries_view(before), j as int);
                }
                let (_entry_id, buffer) = self.entries.remove(j);
                proof {
                    assert(entries_view(self.entries@) =~= entries_view(before).remove(j as int));
                    lemma_assoc_fold_remove(entries_view(before), j as int);
                    assert(distinct_keys(entries_view(self.entries@)));
                }
                buffer
            },
            None => {
                proof {
                    assert(forall|t: int|
                        0 <= t < entries_view(before).len() ==> entries_view(before)[t].0 != id);
                    assert(self@ =~= old(self)@.remove(id));
                }
                Vec::new()
            },
        }
    }
}

} // verus!
