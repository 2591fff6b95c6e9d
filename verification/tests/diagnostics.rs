use qbit_toolbox::diagnostics::{DiagnosticEvent, DiagnosticLevel, DiagnosticsRecorder};
use std::time::SystemTime;

fn event(name: &'static str) -> DiagnosticEvent {
    DiagnosticEvent {
        timestamp: SystemTime::UNIX_EPOCH,
        level: DiagnosticLevel::Info,
        component: "diagnostics",
        event: name,
        error_code: None,
    }
}

#[test]
fn capacity_is_bounded_and_evicts_oldest_events() {
    let mut recorder = DiagnosticsRecorder::new(2);
    recorder.record(event("first"));
    recorder.record(event("second"));
    recorder.record(event("third"));

    assert_eq!(recorder.len(), 2);
    assert_eq!(
        recorder
            .events()
            .iter()
            .map(|event| event.event)
            .collect::<Vec<_>>(),
        ["second", "third"]
    );
}

#[test]
fn zero_capacity_recorder_discards_events() {
    let mut recorder = DiagnosticsRecorder::new(0);
    recorder.record(event("discarded"));

    assert!(recorder.is_empty());
    assert_eq!(recorder.len(), 0);
}

#[test]
fn preserves_safe_structured_metadata() {
    let mut recorder = DiagnosticsRecorder::new(1);
    let expected = DiagnosticEvent {
        timestamp: SystemTime::UNIX_EPOCH,
        level: DiagnosticLevel::Error,
        component: "sync",
        event: "request_failed",
        error_code: Some("SYNC_REQUEST_FAILED"),
    };

    recorder.record(expected.clone());

    assert_eq!(recorder.events().first(), Some(&expected));
}

#[test]
fn recorder_keeps_the_newest_events_in_order() {
    let mut recorder = DiagnosticsRecorder::new(3);
    let names = ["a", "b", "c", "d", "e", "f", "g"];
    for (index, name) in names.iter().enumerate() {
        recorder.record(event(name));
        assert!(recorder.len() <= 3);
        let kept: Vec<_> = recorder.events().iter().map(|event| event.event).collect();
        let start = (index + 1).saturating_sub(3);
        assert_eq!(kept, names[start..=index].to_vec());
    }
}

#[test]
fn recorder_below_capacity_keeps_everything() {
    let mut recorder = DiagnosticsRecorder::new(5);
    assert!(recorder.is_empty());
    recorder.record(event("one"));
    recorder.record(event("two"));
    assert_eq!(recorder.len(), 2);
    assert!(!recorder.is_empty());
    let kept: Vec<_> = recorder.events().iter().map(|event| event.event).collect();
    assert_eq!(kept, ["one", "two"]);
}
