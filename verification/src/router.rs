//! The event router: attributes one emitted event to the innermost
//! enclosing unit of work that has a registered buffer.
//!
//! The host framework hands the router, once per event, the event's
//! severity, its raw field payload, and the identities of its enclosing
//! units of work, innermost first. The router appends one record to the
//! buffer of the first registered ancestor and leaves every other buffer
//! untouched; an event with no registered ancestor is dropped.

use vstd::prelude::*;

use crate::level::Level;
use crate::record::EventLog;
use crate::record::LogView;
use crate::record::record_of;
use crate::registry::CaptureRegistry;

verus! {

/// The identity an event is attributed to: the first entry of the
/// ancestry, innermost first, that has a registered buffer.
pub open spec fn route_target(m: Map<u64, Seq<LogView>>, ancestry: Seq<u64>) -> Option<u64>
    decreases ancestry.len(),
{
    if ancestry.len() == 0 {
        None
    } else if m.contains_key(ancestry.first()) {
        Some(ancestry.first())
    } else {
        route_target(m, ancestry.drop_first())
    }
}

/// The registry after one event is routed: the record appended to the
/// target's buffer alone, or everything unchanged when no enclosing unit
/// of work is registered.
pub open spec fn route_effect(
    m: Map<u64, Seq<LogView>>,
    ancestry: Seq<u64>,
    rec: LogView,
) -> Map<u64, Seq<LogView>> {
    match route_target(m, ancestry) {
        Some(id) => m.insert(id, m[id].push(rec)),
        None => m,
    }
}

/// The hook a host logging framework invokes once per emitted event.
pub struct TracingSpanCaptureLayer;

impl TracingSpanCaptureLayer {
    /// Route one event: walk the ancestry innermost to outermost, and on
    /// the first identity with a registered buffer append the record built
    /// from the event's severity and raw fields, then stop. An event with
    /// an empty ancestry, or none of whose ancestors is registered, leaves
    /// the registry unchanged.
    pub fn on_event(
        &self,
        registry: &mut CaptureRegistry,
        ancestry: &Vec<u64>,
        level: Level,
        raw_fields: Vec<(String, String)>,
    )
        requires
            old(registry).wf(),
        ensures
            final(registry).wf(),
            final(registry)@ == route_effect(
                old(registry)@,
                ancestry@,
                record_of(level, raw_fields@),
            ),
    {
        let ghost m = registry@;
        let ghost rf = raw_fields@;
        proof {
            assert(ancestry@.skip(0) =~= ancestry@);
        }
        let mut i: usize = 0;
        while i < ancestry.len()
            invariant
                i <= ancestry@.len(),
                registry.wf(),
                registry@ == m,
                m == old(registry)@,
                raw_fields@ == rf,
                route_target(m, ancestry@) == route_target(m, ancestry@.skip(i as int)),
                forall|t: int| 0 <= t < i ==> !m.contains_key(ancestry@[t]),
            decreases ancestry@.len() - i,
        {
            let id = ancestry[i];
            proof {
                assert(ancestry@.skip(i as int).first() == ancestry@[i as int]);
            }
            if registry.contains(id) {
                let record = EventLog::from_raw(level, raw_fields);
                let ghost rv = record@;
                let appended = registry.append(id, record);
                proof {
                    assert(appended);
                    assert(ancestry@.skip(i as int).len() > 0);
                    assert(route_target(m, ancestry@.skip(i as int)) == Some(id));
                    assert(route_target(m, ancestry@) == Some(id));
                    assert(registry@ == m.insert(id, m[id].push(rv)));
                }
                return;
            }
            proof {
                assert(ancestry@.skip(i as int).drop_first() =~= ancestry@.skip(i as int + 1));
            }
            i = i + 1;
        }
        proof {
            assert(ancestry@.skip(ancestry@.len() as int).len() == 0);
        }
    }
}

} // verus!
