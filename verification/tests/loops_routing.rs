use adventurer::json::JsonValue;
use adventurer::strmap::StrMap;
use adventurer::worker_loop::{is_blank_line, Incoming, JobEnd, JobStep, Reply, Step, WorkerLoop};
use adventurer::workers::{route_reply, ReplyRoute};

fn reply_with_id(id: &str) -> JsonValue {
    JsonValue::Object(vec![
        ("id".to_string(), JsonValue::Str(id.to_string())),
        ("type".to_string(), JsonValue::Str("pong".to_string())),
    ])
}

#[test]
fn replies_reach_their_waiters_once() {
    let mut pending: StrMap<u32> = StrMap::new();
    pending.insert("r0".to_string(), 10);
    pending.insert("r1".to_string(), 11);
    assert!(matches!(route_reply(&mut pending, &reply_with_id("r1")), ReplyRoute::Deliver(11)));
    assert_eq!(pending.len(), 1);
    assert!(matches!(route_reply(&mut pending, &reply_with_id("r1")), ReplyRoute::Unknown(ref id) if id == "r1"));
    assert!(matches!(route_reply(&mut pending, &JsonValue::Object(vec![])), ReplyRoute::NoId));
    assert_eq!(pending.get("r0"), Some(&10));
}

#[test]
fn map_remove() {
    let mut m: StrMap<String> = StrMap::new();
    m.insert("b".to_string(), "2".to_string());
    m.insert("a".to_string(), "1".to_string());
    m.insert("c".to_string(), "3".to_string());
    assert_eq!(m.remove("b"), Some("2".to_string()));
    assert_eq!(m.remove("b"), None);
    assert_eq!(m.len(), 2);
    assert_eq!(m.entry(0).0, "a");
    assert_eq!(m.entry(1).0, "c");
}

#[test]
fn request_lines() {
    assert!(is_blank_line(" \t\n"));
    assert!(!is_blank_line(" {} "));
    let mut l = WorkerLoop::new();
    assert!(matches!(l.on_request(Incoming::Malformed), Step::Skip));
    assert!(matches!(l.on_request(Incoming::Ping { id: "r1".to_string() }), Step::Send(Reply::Pong { id }) if id == "r1"));
    assert!(matches!(l.on_request(Incoming::Job { id: "r2".to_string() }), Step::Submit { id } if id == "r2"));
    assert!(matches!(l.on_job_end(JobEnd::Finished), JobStep::SendResult { id } if id == "r2"));
    assert!(l.reading());
    assert!(matches!(
        l.on_request(Incoming::Shutdown { id: String::new() }),
        Step::SendAndStop(Reply::ShutdownAck { id }) if id.is_empty()
    ));
    assert!(!l.reading());
}

fn job(id: &str, end: JobEnd) -> JobStep {
    let mut l = WorkerLoop::new();
    assert!(matches!(l.on_request(Incoming::Job { id: id.to_string() }), Step::Submit { .. }));
    l.on_job_end(end)
}

#[test]
fn job_endings() {
    assert!(matches!(job("r1", JobEnd::Finished), JobStep::SendResult { id } if id == "r1"));
    assert!(matches!(
        job("r1", JobEnd::Failed("bad".to_string())),
        JobStep::Send(Reply::Error { id, message }) if id == "r1" && message == "bad"
    ));
    let mut l = WorkerLoop::new();
    l.on_request(Incoming::Job { id: "r2".to_string() });
    assert!(matches!(
        l.on_job_end(JobEnd::EngineGone),
        JobStep::SendAndStop(Reply::Error { id, message }) if id == "r2" && message == "engine thread died"
    ));
    assert!(!l.reading());
    assert!(matches!(
        job("r3", JobEnd::ReplyDropped),
        JobStep::Send(Reply::Error { message, .. }) if message == "engine thread dropped reply"
    ));
    assert!(matches!(
        job("r4", JobEnd::DecodeFailed("no such file".to_string())),
        JobStep::Send(Reply::Error { message, .. }) if message == "ffmpeg decode: no such file"
    ));
}
