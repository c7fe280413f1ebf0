//! The recorder handle: the scoped resource that makes capture active for
//! one unit of work.
//!
//! Construction registers a fresh buffer under the unit's identity;
//! retrieval hands the captured records out in emission order; release
//! removes the registry entry. The identity comes from a live tracing
//! span; a span that was never activated, or is already closed, has none,
//! and constructing a handle for it fails.

use vstd::prelude::*;

use crate::record::EventLog;
use crate::record::LogView;
use crate::registry::CaptureRegistry;
use crate::registry::logs_view;

verus! {

/// Why a recorder handle could not be constructed.
#[derive(Clone, Copy, Debug, PartialEq, Eq, Structural)]
pub enum CaptureError {
    /// The scope was never activated or is already closed, so it carries
    /// no identity to capture under.
    ScopeNotIdentifiable,
}

#[verifier::external_type_specification]
#[verifier::external_body]
pub struct ExSpan(tracing::Span);

/// Relies on tracing's `Span::id` and `Id::into_u64`: the span's identity
/// as an integer when the span is enabled and not yet closed, `None`
/// otherwise; span identities are documented to be greater than zero.
#[verifier::external_body]
fn span_id_of(span: &tracing::Span) -> (r: Option<u64>)
    ensures
        r matches Some(id) ==> id != 0,
{
    span.id().map(|id| id.into_u64())
}

/// A live recording of the log events captured for one unit of work.
#[derive(Debug)]
pub struct RecordedLogs {
    span_id: u64,
}

impl RecordedLogs {
    /// The identity this handle records for.
    pub closed spec fn id(&self) -> u64 {
        self.span_id
    }

    /// The identity this handle records for.
    pub fn span_id(&self) -> (r: u64)
        ensures
            r == self.id(),
    {
        self.span_id
    }

    /// Register a fresh, empty buffer for the given identity; a buffer
    /// already registered for that identity is overwritten.
    pub fn for_span_id(registry: &mut CaptureRegistry, span_id: u64) -> (h: RecordedLogs)
        requires
            old(registry).wf(),
        ensures
            final(registry).wf(),
            h.id() == span_id,
            final(registry)@ == old(registry)@.insert(span_id, Seq::<LogView>::empty()),
    {
        proof {
            assert(logs_view(Seq::<EventLog>::empty()) =~= Seq::<LogView>::empty());
        }
        registry.register(span_id, Vec::new());
        RecordedLogs { span_id }
    }

    /// Begin recording for the given scope. When the scope carries no
    /// identity the registry is left unchanged and construction fails;
    /// otherwise a fresh, empty buffer is registered under that identity.
    pub fn new(span: &tracing::Span, registry: &mut CaptureRegistry) -> (r: Result<
        RecordedLogs,
        CaptureError,
    >)
        requires
            old(registry).wf(),
        ensures
            final(registry).wf(),
            r matches Ok(h) ==> final(registry)@ == old(registry)@.insert(
                h.id(),
                Seq::<LogView>::empty(),
            ),
            r matches Err(e) ==> e == CaptureError::ScopeNotIdentifiable && final(registry)@
                == old(registry)@,
    {
        match span_id_of(span) {
            Some(id) => Ok(Self::for_span_id(registry, id)),
            None => Err(CaptureError::ScopeNotIdentifiable),
        }
    }

    /// Hand out everything captured so far, in emission order, and leave
    /// the handle recording into a fresh, empty buffer.
    pub fn drain(&self, registry: &mut CaptureRegistry) -> (r: Vec<EventLog>)
        requires
            old(registry).wf(),
        ensures
            final(registry).wf(),
            old(registry)@.contains_key(self.id()) ==> logs_view(r@) == old(registry)@[self.id()]
                && final(registry)@ == old(registry)@.insert(self.id(), Seq::<LogView>::empty()),
            !old(registry)@.contains_key(self.id()) ==> r@ == Seq::<EventLog>::empty()
                && final(registry)@ == old(registry)@,
    {
        registry.drain(self.span_id)
    }

    /// Take everything captured for this handle, in emission order, and
    /// end the recording: the identity is unregistered afterwards.
    pub fn into_logs(self, registry: &mut CaptureRegistry) -> (r: Vec<EventLog>)
        requires
            old(registry).wf(),
        ensures
            final(registry).wf(),
            old(registry)@.contains_key(self.id()) ==> logs_view(r@) == old(registry)@[self.id()],
            !old(registry)@.contains_key(self.id()) ==> r@ == Seq::<EventLog>::empty(),
            final(registry)@ == old(registry)@.remove(self.id()),
    {
        registry.take(self.span_id)
    }

    /// End the recording without retrieving anything: the identity is
    /// unregistered. Releasing an identity that is already gone changes
    /// nothing, so release is idempotent.
    pub fn release(self, registry: &mut CaptureRegistry)
        requires
            old(registry).wf(),
        ensures
            final(registry).wf(),
            final(registry)@ == old(registry)@.remove(self.id()),
    {
        registry.unregister(self.span_id)
    }
}

} // verus!
