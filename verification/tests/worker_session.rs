use backend::types::SubscriptionCommand;
use backend::worker::{after_session, frame_text, on_socket_event, Frame, Method, SessionEnd,
    SessionStep, SocketEvent, WorkerState, RECONNECT_DELAY};

fn sub(s: &str) -> SubscriptionCommand {
    SubscriptionCommand::Subscribe(s.to_string())
}

fn unsub(s: &str) -> SubscriptionCommand {
    SubscriptionCommand::Unsubscribe(s.to_string())
}

fn sent(frame: &Option<Frame>) -> Option<(Method, Vec<String>)> {
    frame.as_ref().map(|f| (f.method, f.params.clone()))
}

#[test]
fn subscribe_commands_are_idempotent() {
    let mut w = WorkerState::new("0xabc".to_string(), 14);
    assert!(w.is_idle());
    let a = w.on_command(sub("kl@14@0xabc@1m"));
    assert_eq!(sent(&a.send), Some((Method::Subscribe, vec!["kl@14@0xabc@1m".to_string()])));
    assert!(!a.exit);
    let b = w.on_command(sub("kl@14@0xabc@1m"));
    assert!(b.send.is_none());
    assert!(!b.exit);
    let c = w.on_command(sub("tx@14_0xabc"));
    assert_eq!(sent(&c.send), Some((Method::Subscribe, vec!["tx@14_0xabc".to_string()])));
    let d = w.on_command(sub("tx@14_0xabc"));
    assert!(d.send.is_none());
    assert!(!w.is_idle());
}

#[test]
fn worker_ends_when_the_last_stream_goes() {
    let mut w = WorkerState::new("0xabc".to_string(), 14);
    w.on_command(sub("kl@14@0xabc@1m"));
    w.on_command(sub("kl@14@0xabc@5m"));
    w.on_command(sub("tx@14_0xabc"));
    let a = w.on_command(unsub("kl@14@0xabc@1m"));
    assert_eq!(sent(&a.send), Some((Method::Unsubscribe, vec!["kl@14@0xabc@1m".to_string()])));
    assert!(!a.exit);
    let again = w.on_command(unsub("kl@14@0xabc@1m"));
    assert!(again.send.is_none());
    assert!(!again.exit);
    let b = w.on_command(unsub("tx@14_0xabc"));
    assert_eq!(sent(&b.send), Some((Method::Unsubscribe, vec!["tx@14_0xabc".to_string()])));
    assert!(!b.exit);
    let c = w.on_command(unsub("kl@14@0xabc@5m"));
    assert_eq!(sent(&c.send), Some((Method::Unsubscribe, vec!["kl@14@0xabc@5m".to_string()])));
    assert!(c.exit);
    assert!(w.is_idle());
}

#[test]
fn unsubscribing_what_is_not_held_ends_an_idle_worker() {
    let mut w = WorkerState::new("0xabc".to_string(), 14);
    let a = w.on_command(unsub("tx@14_0xabc"));
    assert!(a.send.is_none());
    assert!(a.exit);
    let mut busy = WorkerState::new("0xabc".to_string(), 14);
    busy.on_command(sub("tx@14_0xabc"));
    let b = busy.on_command(unsub("kl@14@0xabc@1m"));
    assert!(b.send.is_none());
    assert!(!b.exit);
}

#[test]
fn shutdown_and_unknown_streams() {
    let mut w = WorkerState::new("0xabc".to_string(), 14);
    w.on_command(sub("tx@14_0xabc"));
    let odd = w.on_command(sub("depth@14"));
    assert!(odd.send.is_none());
    assert!(!odd.exit);
    let stop = w.on_command(sub("SHUTDOWN"));
    assert!(stop.send.is_none());
    assert!(stop.exit);
    let odd_unsub = w.on_command(unsub("SHUTDOWN"));
    assert!(odd_unsub.send.is_none());
    assert!(!odd_unsub.exit);
}

#[test]
fn reconnect_resubscribes_exactly_what_was_held() {
    let mut w = WorkerState::new("0xabc".to_string(), 14);
    assert!(w.resubscribe_streams().is_empty());
    w.on_command(sub("kl@14@0xabc@1m"));
    w.on_command(sub("tx@14_0xabc"));
    w.on_command(sub("kl@14@0xabc@5m"));
    w.on_command(sub("kl@14@0xabc@1h"));
    w.on_command(unsub("kl@14@0xabc@5m"));
    let streams = w.resubscribe_streams();
    assert_eq!(streams, vec!["tx@14_0xabc", "kl@14@0xabc@1m", "kl@14@0xabc@1h"]);
    for s in &streams {
        let step = w.on_command(sub(s));
        assert!(step.send.is_none());
        assert!(!step.exit);
    }
    assert_eq!(w.resubscribe_streams(), streams);
}

#[test]
fn frames_are_json_objects() {
    let frame = Frame {
        method: Method::Subscribe,
        params: vec!["kl@14@0xabc@1m".to_string(), "tx@14_0xabc".to_string()],
    };
    let text = frame_text(&frame, 1_700_000_000_123);
    assert_eq!(
        text,
        "{\"id\":1700000000123,\"method\":\"SUBSCRIBE\",\"params\":[\"kl@14@0xabc@1m\",\"tx@14_0xabc\"]}"
    );
    let value: serde_json::Value = serde_json::from_str(&text).unwrap();
    assert_eq!(value.get("method").and_then(|m| m.as_str()), Some("SUBSCRIBE"));
    assert_eq!(value.get("id").and_then(|m| m.as_u64()), Some(1_700_000_000_123));
    let params = value.get("params").and_then(|p| p.as_array()).unwrap();
    assert_eq!(params.len(), 2);
    assert_eq!(params[0].as_str(), Some("kl@14@0xabc@1m"));
}

#[test]
fn frames_escape_their_streams() {
    let frame = Frame { method: Method::Unsubscribe, params: vec!["a\"b\\c\n".to_string()] };
    let text = frame_text(&frame, 0);
    assert_eq!(text, "{\"id\":0,\"method\":\"UNSUBSCRIBE\",\"params\":[\"a\\\"b\\\\c\\n\"]}");
    let value: serde_json::Value = serde_json::from_str(&text).unwrap();
    assert_eq!(value.get("params").and_then(|p| p.as_array()).unwrap()[0].as_str(), Some("a\"b\\c\n"));
    let empty = Frame { method: Method::Subscribe, params: Vec::new() };
    assert_eq!(frame_text(&empty, 7), "{\"id\":7,\"method\":\"SUBSCRIBE\",\"params\":[]}");
}

#[test]
fn frames_match_the_json_library() {
    let params = vec!["kl@14@0xabc@1m".to_string()];
    let frame = Frame { method: Method::Subscribe, params: params.clone() };
    let mut object = serde_json::Map::new();
    object.insert("method".to_string(), serde_json::Value::String("SUBSCRIBE".to_string()));
    object.insert(
        "params".to_string(),
        serde_json::Value::Array(params.into_iter().map(serde_json::Value::String).collect()),
    );
    object.insert("id".to_string(), serde_json::Value::Number(42u64.into()));
    assert_eq!(frame_text(&frame, 42), serde_json::Value::Object(object).to_string());
}

#[test]
fn method_names() {
    assert_eq!(Method::Subscribe.name(), "SUBSCRIBE");
    assert_eq!(Method::Unsubscribe.name(), "UNSUBSCRIBE");
}

#[test]
fn socket_events() {
    assert_eq!(on_socket_event(SocketEvent::Text), SessionStep::Route);
    assert_eq!(on_socket_event(SocketEvent::Ping), SessionStep::ReplyPong);
    assert_eq!(on_socket_event(SocketEvent::Pong), SessionStep::Ignore);
    assert_eq!(on_socket_event(SocketEvent::Binary), SessionStep::Ignore);
    assert_eq!(on_socket_event(SocketEvent::Close), SessionStep::Reconnect);
    assert_eq!(on_socket_event(SocketEvent::End), SessionStep::Reconnect);
    assert_eq!(on_socket_event(SocketEvent::Failed), SessionStep::Fail);
}

#[test]
fn what_follows_a_session() {
    assert_eq!(after_session(SessionEnd::Finished), None);
    assert_eq!(after_session(SessionEnd::Disconnected), Some(3));
    assert_eq!(after_session(SessionEnd::Crashed), Some(3));
    assert_eq!(RECONNECT_DELAY, 3);
}
