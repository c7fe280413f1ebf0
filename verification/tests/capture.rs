//! Scenario tests driving the capture library through its public surface:
//! a registry, recorder handles, and the router hook fed with the level,
//! raw fields and ancestry the host framework would supply.

use tracing_span_capture::CaptureError;
use tracing_span_capture::CaptureRegistry;
use tracing_span_capture::Level;
use tracing_span_capture::RecordedLogs;
use tracing_span_capture::TracingSpanCaptureLayer;

fn raw(pairs: &[(&str, &str)]) -> Vec<(String, String)> {
    pairs.iter().map(|(k, v)| (k.to_string(), v.to_string())).collect()
}

#[test]
fn captures_error_and_info_in_order() {
    let mut reg = CaptureRegistry::new();
    let layer = TracingSpanCaptureLayer;
    let handle = RecordedLogs::for_span_id(&mut reg, 1);
    let ancestry = vec![1u64];
    layer.on_event(&mut reg, &ancestry, Level::Error, raw(&[("message", "abc")]));
    layer.on_event(&mut reg, &ancestry, Level::Info, raw(&[("message", "and this")]));
    let logs = handle.into_logs(&mut reg);
    assert_eq!(logs.len(), 2);
    assert_eq!(logs[0].level, Level::Error);
    assert_eq!(logs[0].message, "abc");
    assert!(logs[0].fields.is_empty());
    assert_eq!(logs[1].level, Level::Info);
    assert_eq!(logs[1].message, "and this");
    assert!(logs[1].fields.is_empty());
}

#[test]
fn captures_extra_fields_beside_message() {
    let mut reg = CaptureRegistry::new();
    let layer = TracingSpanCaptureLayer;
    let handle = RecordedLogs::for_span_id(&mut reg, 1);
    let ancestry = vec![1u64];
    layer.on_event(
        &mut reg,
        &ancestry,
        Level::Error,
        raw(&[("a", "5"), ("message", "try capture that")]),
    );
    let logs = handle.into_logs(&mut reg);
    assert_eq!(logs.len(), 1);
    assert_eq!(logs[0].message, "try capture that");
    assert_eq!(logs[0].fields, vec![("a".to_string(), "5".to_string())]);
}

#[test]
fn event_before_handle_exists_is_not_captured() {
    let mut reg = CaptureRegistry::new();
    let layer = TracingSpanCaptureLayer;
    let ancestry = vec![7u64];
    layer.on_event(&mut reg, &ancestry, Level::Error, raw(&[("message", "too early")]));
    let handle = RecordedLogs::for_span_id(&mut reg, 7);
    layer.on_event(&mut reg, &ancestry, Level::Error, raw(&[("message", "in time")]));
    let logs = handle.into_logs(&mut reg);
    assert_eq!(logs.len(), 1);
    assert_eq!(logs[0].message, "in time");
}

#[test]
fn innermost_handle_wins_over_outer() {
    let mut reg = CaptureRegistry::new();
    let layer = TracingSpanCaptureLayer;
    let outer = RecordedLogs::for_span_id(&mut reg, 1);
    let inner = RecordedLogs::for_span_id(&mut reg, 2);
    // Emitted while the inner unit of work is entered: ancestry is
    // innermost first.
    let ancestry = vec![2u64, 1u64];
    layer.on_event(&mut reg, &ancestry, Level::Warn, raw(&[("message", "nested")]));
    let inner_logs = inner.into_logs(&mut reg);
    let outer_logs = outer.into_logs(&mut reg);
    assert_eq!(inner_logs.len(), 1);
    assert_eq!(inner_logs[0].message, "nested");
    assert!(outer_logs.is_empty());
}

#[test]
fn sibling_handles_are_isolated() {
    let mut reg = CaptureRegistry::new();
    let layer = TracingSpanCaptureLayer;
    let a = RecordedLogs::for_span_id(&mut reg, 1);
    let c = RecordedLogs::for_span_id(&mut reg, 3);
    let ancestry = vec![1u64];
    layer.on_event(&mut reg, &ancestry, Level::Info, raw(&[("message", "only in a")]));
    let a_logs = a.into_logs(&mut reg);
    let c_logs = c.into_logs(&mut reg);
    assert_eq!(a_logs.len(), 1);
    assert_eq!(a_logs[0].message, "only in a");
    assert!(c_logs.is_empty());
}

#[test]
fn unregistered_ancestry_drops_event() {
    let mut reg = CaptureRegistry::new();
    let layer = TracingSpanCaptureLayer;
    layer.on_event(&mut reg, &Vec::new(), Level::Error, raw(&[("message", "no scope")]));
    layer.on_event(&mut reg, &vec![5u64], Level::Error, raw(&[("message", "no handle")]));
    assert!(reg.lookup(5).is_none());
    let handle = RecordedLogs::for_span_id(&mut reg, 5);
    let logs = handle.into_logs(&mut reg);
    assert!(logs.is_empty());
}

#[test]
fn sequential_events_keep_emission_order() {
    let mut reg = CaptureRegistry::new();
    let layer = TracingSpanCaptureLayer;
    let handle = RecordedLogs::for_span_id(&mut reg, 4);
    let ancestry = vec![4u64];
    for i in 0..5u64 {
        layer.on_event(
            &mut reg,
            &ancestry,
            Level::Debug,
            raw(&[("message", &format!("event {i}"))]),
        );
    }
    let logs = handle.into_logs(&mut reg);
    assert_eq!(logs.len(), 5);
    for i in 0..5usize {
        assert_eq!(logs[i].message, format!("event {i}"));
    }
}

#[test]
fn drain_resets_and_keeps_capturing() {
    let mut reg = CaptureRegistry::new();
    let layer = TracingSpanCaptureLayer;
    let handle = RecordedLogs::for_span_id(&mut reg, 1);
    let ancestry = vec![1u64];
    layer.on_event(&mut reg, &ancestry, Level::Info, raw(&[("message", "first")]));
    let first = handle.drain(&mut reg);
    assert_eq!(first.len(), 1);
    assert_eq!(first[0].message, "first");
    layer.on_event(&mut reg, &ancestry, Level::Info, raw(&[("message", "second")]));
    let second = handle.drain(&mut reg);
    assert_eq!(second.len(), 1);
    assert_eq!(second[0].message, "second");
    let rest = handle.into_logs(&mut reg);
    assert!(rest.is_empty());
}

#[test]
fn release_routes_to_next_enclosing_handle() {
    let mut reg = CaptureRegistry::new();
    let layer = TracingSpanCaptureLayer;
    let outer = RecordedLogs::for_span_id(&mut reg, 1);
    let inner = RecordedLogs::for_span_id(&mut reg, 2);
    inner.release(&mut reg);
    assert!(reg.lookup(2).is_none());
    let ancestry = vec![2u64, 1u64];
    layer.on_event(&mut reg, &ancestry, Level::Error, raw(&[("message", "falls outward")]));
    let outer_logs = outer.into_logs(&mut reg);
    assert_eq!(outer_logs.len(), 1);
    assert_eq!(outer_logs[0].message, "falls outward");
}

#[test]
fn release_without_any_handle_left_drops_event() {
    let mut reg = CaptureRegistry::new();
    let layer = TracingSpanCaptureLayer;
    let only = RecordedLogs::for_span_id(&mut reg, 9);
    only.release(&mut reg);
    assert!(reg.lookup(9).is_none());
    let ancestry = vec![9u64];
    layer.on_event(&mut reg, &ancestry, Level::Error, raw(&[("message", "gone")]));
    assert!(reg.lookup(9).is_none());
}

#[test]
fn second_handle_for_same_identity_overwrites() {
    let mut reg = CaptureRegistry::new();
    let layer = TracingSpanCaptureLayer;
    let first = RecordedLogs::for_span_id(&mut reg, 1);
    let ancestry = vec![1u64];
    layer.on_event(&mut reg, &ancestry, Level::Info, raw(&[("message", "before overwrite")]));
    let second = RecordedLogs::for_span_id(&mut reg, 1);
    let second_logs = second.into_logs(&mut reg);
    assert!(second_logs.is_empty());
    // The first handle's buffer was overwritten and then removed.
    let first_logs = first.into_logs(&mut reg);
    assert!(first_logs.is_empty());
}

#[test]
fn message_is_empty_when_event_carries_none() {
    let mut reg = CaptureRegistry::new();
    let layer = TracingSpanCaptureLayer;
    let handle = RecordedLogs::for_span_id(&mut reg, 1);
    let ancestry = vec![1u64];
    layer.on_event(&mut reg, &ancestry, Level::Trace, raw(&[("a", "1"), ("b", "2")]));
    let logs = handle.into_logs(&mut reg);
    assert_eq!(logs.len(), 1);
    assert_eq!(logs[0].message, "");
    assert_eq!(
        logs[0].fields,
        vec![("a".to_string(), "1".to_string()), ("b".to_string(), "2".to_string())]
    );
}

#[test]
fn later_occurrence_of_a_field_name_wins() {
    let mut reg = CaptureRegistry::new();
    let layer = TracingSpanCaptureLayer;
    let handle = RecordedLogs::for_span_id(&mut reg, 1);
    let ancestry = vec![1u64];
    layer.on_event(
        &mut reg,
        &ancestry,
        Level::Warn,
        raw(&[("k", "1"), ("message", "old"), ("k", "2"), ("message", "new")]),
    );
    let logs = handle.into_logs(&mut reg);
    assert_eq!(logs.len(), 1);
    assert_eq!(logs[0].message, "new");
    assert_eq!(logs[0].fields, vec![("k".to_string(), "2".to_string())]);
}

#[test]
fn handle_for_disabled_span_fails() {
    let mut reg = CaptureRegistry::new();
    // A disabled span was never activated, so it carries no identity.
    let span = tracing::Span::none();
    let result = RecordedLogs::new(&span, &mut reg);
    assert_eq!(result.unwrap_err(), CaptureError::ScopeNotIdentifiable);
    assert!(reg.lookup(1).is_none());
}

#[test]
fn into_logs_after_release_returns_nothing() {
    let mut reg = CaptureRegistry::new();
    let layer = TracingSpanCaptureLayer;
    let handle = RecordedLogs::for_span_id(&mut reg, 2);
    let twin = RecordedLogs::for_span_id(&mut reg, 2);
    let ancestry = vec![2u64];
    layer.on_event(&mut reg, &ancestry, Level::Info, raw(&[("message", "kept")]));
    // Taking the logs through one handle unregisters the identity.
    let kept = twin.into_logs(&mut reg);
    assert_eq!(kept.len(), 1);
    let gone = handle.into_logs(&mut reg);
    assert!(gone.is_empty());
}

#[test]
fn span_id_getter_reports_identity() {
    let mut reg = CaptureRegistry::new();
    let handle = RecordedLogs::for_span_id(&mut reg, 42);
    assert_eq!(handle.span_id(), 42);
    handle.release(&mut reg);
}
