use firebase_rs::sse::{listen, normalize_event, process_events, RawEvent, StreamError};
use std::cell::RefCell;

fn event(event_type: &str, data: &str) -> Result<RawEvent, StreamError> {
    Ok(RawEvent::Event { event_type: event_type.to_string(), data: data.to_string() })
}

fn comment(text: &str) -> Result<RawEvent, StreamError> {
    Ok(RawEvent::Comment(text.to_string()))
}

fn error(detail: &str) -> Result<RawEvent, StreamError> {
    Err(StreamError { detail: detail.to_string() })
}

#[test]
fn scenario_keep_alive_suppressed() {
    let items = vec![
        event("keep-alive", "null"),
        comment("ping"),
        event("put", "null"),
        event("patch", "{\"a\":1}"),
    ];
    let out = process_events(items, false);
    assert_eq!(
        out,
        vec![
            Ok(("put".to_string(), None)),
            Ok(("patch".to_string(), Some("{\"a\":1}".to_string()))),
        ]
    );
}

#[test]
fn scenario_keep_alive_visible() {
    let items = vec![
        event("keep-alive", "null"),
        comment("ping"),
        event("put", "null"),
        event("patch", "{\"a\":1}"),
    ];
    let out = process_events(items, true);
    assert_eq!(
        out,
        vec![
            Ok(("keep-alive".to_string(), None)),
            Ok(("put".to_string(), None)),
            Ok(("patch".to_string(), Some("{\"a\":1}".to_string()))),
        ]
    );
}

#[test]
fn keep_alive_suppressed_whatever_its_data() {
    let out = process_events(vec![event("keep-alive", "payload")], false);
    assert_eq!(out, vec![]);
}

#[test]
fn keep_alive_visible_keeps_data_verbatim() {
    let out = process_events(vec![event("keep-alive", "payload")], true);
    assert_eq!(out, vec![Ok(("keep-alive".to_string(), Some("payload".to_string())))]);
}

#[test]
fn comments_never_appear() {
    assert_eq!(process_events(vec![comment("a"), comment("b")], false), vec![]);
    assert_eq!(process_events(vec![comment("a"), comment("b")], true), vec![]);
}

#[test]
fn null_data_normalizes_to_no_payload() {
    assert_eq!(normalize_event(event("put", "null"), false), Some(Ok(("put".to_string(), None))));
}

#[test]
fn non_null_data_kept_verbatim() {
    assert_eq!(
        normalize_event(event("put", "NULL"), false),
        Some(Ok(("put".to_string(), Some("NULL".to_string()))))
    );
    assert_eq!(
        normalize_event(event("put", " null"), false),
        Some(Ok(("put".to_string(), Some(" null".to_string()))))
    );
}

#[test]
fn error_passes_through_and_iteration_continues() {
    let items = vec![event("put", "1"), error("connection dropped"), event("patch", "2")];
    let out = process_events(items, false);
    assert_eq!(
        out,
        vec![
            Ok(("put".to_string(), Some("1".to_string()))),
            Err(StreamError { detail: "connection dropped".to_string() }),
            Ok(("patch".to_string(), Some("2".to_string()))),
        ]
    );
}

#[test]
fn empty_input_gives_empty_output() {
    assert_eq!(process_events(vec![], false), vec![]);
    assert_eq!(process_events(vec![], true), vec![]);
}

#[test]
fn listen_reports_every_element_in_order() {
    let events: RefCell<Vec<(String, Option<String>)>> = RefCell::new(Vec::new());
    let errors: RefCell<Vec<StreamError>> = RefCell::new(Vec::new());
    let items = vec![
        event("keep-alive", "null"),
        error("boom"),
        comment("ping"),
        event("put", "null"),
        event("patch", "x"),
    ];
    listen(
        items,
        |t, p| events.borrow_mut().push((t, p)),
        |e| errors.borrow_mut().push(e),
        false,
    );
    assert_eq!(
        events.into_inner(),
        vec![("put".to_string(), None), ("patch".to_string(), Some("x".to_string()))]
    );
    assert_eq!(errors.into_inner(), vec![StreamError { detail: "boom".to_string() }]);
}
