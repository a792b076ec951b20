use sysmon::monitor::Data;
use sysmon::monitor::Event;
use sysmon::monitor::Failure;
use sysmon::monitor::Severity;
use sysmon::monitor::Time;
use sysmon::monitor::Update;
use sysmon::monitor::UpdateScope;
use sysmon::sse::json_of_update;
use sysmon::sse::sse_frame;
use sysmon::sse::sse_keepalive;
use sysmon::sse::SseSession;
use sysmon::value::Value;
use sysmon::value::ValueMap;

fn failure_update(source: &str, error: &str) -> Update {
    Update {
        source: source.to_string(),
        typ: "journal".to_string(),
        scope: UpdateScope::Partial,
        time: Time { sec: 12, ms: 345 },
        data: Data::Error(Failure { id: Some("follow".to_string()), error: error.to_string() }),
    }
}

#[test]
fn update_encodes_to_the_documented_shape() {
    let u = failure_update("j", "boom");
    let doc = json_of_update(&u);
    assert_eq!(
        doc,
        "{\"source\":\"j\",\"type\":\"journal\",\"time\":{\"sec\":12,\"ms\":345},\
         \"data\":[\"Error\",{\"id\":\"follow\",\"error\":\"boom\"}]}"
    );
}

#[test]
fn event_updates_carry_the_event_tag() {
    let mut attrs = ValueMap::new();
    attrs.insert("UNIT".to_string(), Value::Str("sshd".to_string()));
    let u = Update {
        source: "j".to_string(),
        typ: "journal".to_string(),
        scope: UpdateScope::Partial,
        time: Time { sec: 1, ms: 2 },
        data: Data::Event(Event {
            id: None,
            severity: Some(Severity::Warning),
            message: Some("hello".to_string()),
            attrs,
        }),
    };
    let doc = json_of_update(&u);
    assert_eq!(
        doc,
        "{\"source\":\"j\",\"type\":\"journal\",\"time\":{\"sec\":1,\"ms\":2},\
         \"data\":[\"Event\",{\"id\":null,\"severity\":\"Warning\",\"message\":\"hello\",\
         \"attrs\":{\"UNIT\":\"sshd\"}}]}"
    );
}

#[test]
fn strings_are_escaped() {
    let u = failure_update("j", "say \"hi\"\nback\\slash");
    let doc = json_of_update(&u);
    assert!(doc.contains("say \\\"hi\\\"\\nback\\\\slash"), "doc was: {}", doc);
    let control = failure_update("j", "\u{1}");
    let doc = json_of_update(&control);
    assert!(doc.contains("\\u0001"), "doc was: {}", doc);
}

#[test]
fn first_message_replaces_then_diffs() {
    let mut session = SseSession::new();
    let a1 = session.envelope(&failure_update("a", "x"));
    assert!(a1.starts_with("{\"key\":\"a\",\"overlay\":\"replace\",\"data\":"), "was: {}", a1);
    let a2 = session.envelope(&failure_update("a", "y"));
    assert!(a2.starts_with("{\"key\":\"a\",\"overlay\":\"diff\",\"data\":"), "was: {}", a2);
    let b1 = session.envelope(&failure_update("b", "z"));
    assert!(b1.starts_with("{\"key\":\"b\",\"overlay\":\"replace\",\"data\":"), "was: {}", b1);
}

#[test]
fn frames_wrap_one_data_line() {
    let f = sse_frame("data", "{\"x\":1}");
    assert_eq!(f, "data: {\"x\":1}\n\n");
    assert_eq!(sse_keepalive(), ":\n");
}

#[test]
fn numbers_and_nesting_encode() {
    let mut inner = ValueMap::new();
    inner.insert("n".to_string(), Value::Int(-5));
    inner.insert("u".to_string(), Value::UInt(7));
    let mut attrs = ValueMap::new();
    attrs.insert("list".to_string(), Value::Arr(vec![Value::Null, Value::Bool(true)]));
    attrs.insert("obj".to_string(), Value::Obj(inner));
    let u = Update {
        source: "s".to_string(),
        typ: "t".to_string(),
        scope: UpdateScope::Partial,
        time: Time { sec: 0, ms: 0 },
        data: Data::Event(Event { id: None, severity: None, message: None, attrs }),
    };
    let doc = json_of_update(&u);
    assert!(
        doc.contains("\"attrs\":{\"list\":[null,true],\"obj\":{\"n\":-5,\"u\":7}}"),
        "doc was: {}",
        doc
    );
}
