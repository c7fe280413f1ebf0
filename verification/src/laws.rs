//! The routing and lifecycle guarantees of the library, stated and proved
//! over the registry view and the routing functions that the executable
//! contracts use.

use vstd::prelude::*;

use crate::record::LogView;
use crate::router::route_effect;
use crate::router::route_target;

verus! {

/// Innermost match: when the innermost enclosing unit of work has a
/// registered buffer, an event is attributed to it alone; the record is
/// appended to that buffer, and every other registered buffer — any outer
/// unit of work with a live handle included — is left unchanged.
pub proof fn lemma_innermost_match(m: Map<u64, Seq<LogView>>, ancestry: Seq<u64>, rec: LogView)
    requires
        ancestry.len() > 0,
        m.contains_key(ancestry.first()),
    ensures
        route_target(m, ancestry) == Some(ancestry.first()),
        route_effect(m, ancestry, rec)[ancestry.first()] == m[ancestry.first()].push(rec),
        forall|a: u64| #![auto]
            m.contains_key(a) && a != ancestry.first() ==> route_effect(m, ancestry, rec)[a]
                == m[a],
{
}

/// An event is only ever attributed to one of its own ancestors, and only
/// to one with a registered buffer.
pub proof fn lemma_route_target_in_ancestry(m: Map<u64, Seq<LogView>>, ancestry: Seq<u64>)
    ensures
        route_target(m, ancestry) matches Some(id) ==> ancestry.contains(id)
            && m.contains_key(id),
    decreases ancestry.len(),
{
    if ancestry.len() > 0 && !m.contains_key(ancestry.first()) {
        lemma_route_target_in_ancestry(m, ancestry.drop_first());
        match route_target(m, ancestry.drop_first()) {
            Some(id) => {
                let i = choose|i: int|
                    0 <= i < ancestry.drop_first().len() && ancestry.drop_first()[i] == id;
                assert(ancestry[i + 1] == id);
            },
            None => {},
        }
    }
}

/// Isolation across siblings: a unit of work that is not among an event's
/// ancestors never receives the event, however many handles are live; its
/// registration and its buffer are exactly as before.
pub proof fn lemma_sibling_isolation(
    m: Map<u64, Seq<LogView>>,
    ancestry: Seq<u64>,
    rec: LogView,
    other: u64,
)
    requires
        !ancestry.contains(other),
    ensures
        route_effect(m, ancestry, rec).contains_key(other) == m.contains_key(other),
        m.contains_key(other) ==> route_effect(m, ancestry, rec)[other] == m[other],
{
    lemma_route_target_in_ancestry(m, ancestry);
}

/// Drop on no capture: an event none of whose enclosing units of work has
/// a registered buffer — in particular one with no enclosing unit at all —
/// is attributed to nobody and leaves the registry exactly as it was.
pub proof fn lemma_drop_when_unregistered(
    m: Map<u64, Seq<LogView>>,
    ancestry: Seq<u64>,
    rec: LogView,
)
    requires
        forall|i: int| 0 <= i < ancestry.len() ==> !m.contains_key(ancestry[i]),
    ensures
        route_target(m, ancestry) is None,
        route_effect(m, ancestry, rec) == m,
    decreases ancestry.len(),
{
    if ancestry.len() > 0 {
        assert(!m.contains_key(ancestry[0]));
        assert(forall|i: int|
            0 <= i < ancestry.drop_first().len() ==> ancestry.drop_first()[i] == ancestry[i + 1]);
        lemma_drop_when_unregistered(m, ancestry.drop_first(), rec);
    }
}

/// The registry after a sequence of events is routed, one after the
/// other, with the same ancestry.
pub open spec fn route_all(
    m: Map<u64, Seq<LogView>>,
    ancestry: Seq<u64>,
    recs: Seq<LogView>,
) -> Map<u64, Seq<LogView>>
    decreases recs.len(),
{
    if recs.len() == 0 {
        m
    } else {
        route_all(route_effect(m, ancestry, recs.first()), ancestry, recs.drop_first())
    }
}

/// Order preservation: events emitted one after the other inside a unit
/// of work whose innermost registered ancestor stays the same are
/// appended to that buffer in emission order — afterwards the buffer is
/// exactly what it held before followed by the routed records.
pub proof fn lemma_order_preservation(
    m: Map<u64, Seq<LogView>>,
    ancestry: Seq<u64>,
    recs: Seq<LogView>,
)
    requires
        ancestry.len() > 0,
        m.contains_key(ancestry.first()),
    ensures
        route_all(m, ancestry, recs).contains_key(ancestry.first()),
        route_all(m, ancestry, recs)[ancestry.first()] == m[ancestry.first()] + recs,
    decreases recs.len(),
{
    let id = ancestry.first();
    if recs.len() == 0 {
        assert(m[id] + recs =~= m[id]);
    } else {
        let stepped = route_effect(m, ancestry, recs.first());
        assert(stepped == m.insert(id, m[id].push(recs.first())));
        lemma_order_preservation(stepped, ancestry, recs.drop_first());
        assert(m[id].push(recs.first()) + recs.drop_first() =~= m[id] + recs);
    }
}

/// Drain resets: once a buffer is reset to empty, the next event routed
/// to that still-registered identity is captured into the fresh buffer,
/// so a second retrieval returns the new events alone.
pub proof fn lemma_drain_resets(
    m: Map<u64, Seq<LogView>>,
    ancestry: Seq<u64>,
    rec: LogView,
    id: u64,
)
    requires
        ancestry.len() > 0,
        ancestry.first() == id,
    ensures
        route_effect(m.insert(id, Seq::<LogView>::empty()), ancestry, rec)[id] == seq![rec],
{
    let drained = m.insert(id, Seq::<LogView>::empty());
    assert(route_target(drained, ancestry) == Some(id));
    assert(Seq::<LogView>::empty().push(rec) =~= seq![rec]);
}

/// Release is final: after an identity is removed it is no longer
/// registered, and an event whose innermost unit of work carried that
/// identity is attributed to the next enclosing registered ancestor, or
/// dropped when there is none.
pub proof fn lemma_release_is_final(m: Map<u64, Seq<LogView>>, ancestry: Seq<u64>, id: u64)
    requires
        ancestry.len() > 0,
        ancestry.first() == id,
    ensures
        !m.remove(id).contains_key(id),
        route_target(m.remove(id), ancestry) == route_target(m.remove(id), ancestry.drop_first()),
{
}

} // verus!
