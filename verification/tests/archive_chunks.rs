use adventurer::archive::{
    chunk_file_name, chunk_seq_of, next_chunk_seq, next_chunk_seq_after, raw_event, ChunkStatus,
};
use adventurer::json::JsonValue;

fn keys(v: &JsonValue) -> Vec<String> {
    match v {
        JsonValue::Object(es) => es.iter().map(|(k, _)| k.clone()).collect(),
        _ => panic!("an archive event is an object"),
    }
}

fn field(v: &JsonValue, key: &str) -> String {
    match v {
        JsonValue::Object(es) => match &es.iter().find(|(k, _)| k == key).expect("key present").1 {
            JsonValue::Str(t) => format!("str:{t}"),
            JsonValue::Number(t) => format!("num:{t}"),
            _ => panic!("archive fields are strings and numbers"),
        },
        _ => panic!("an archive event is an object"),
    }
}

#[test]
fn chunk_names_are_zero_padded() {
    assert_eq!(chunk_file_name(7, "webm"), "chunk-000007.webm");
    assert_eq!(chunk_file_name(0, "ogg"), "chunk-000000.ogg");
    assert_eq!(chunk_file_name(1234567, "wav"), "chunk-1234567.wav");
}

#[test]
fn chunk_numbers_are_read_back() {
    assert_eq!(chunk_seq_of("chunk-000007.webm"), Some(7));
    assert_eq!(chunk_seq_of("chunk-12.ogg"), Some(12));
    assert_eq!(chunk_seq_of(&chunk_file_name(4321, "wav")), Some(4321));
    assert_eq!(chunk_seq_of("chunk-.ogg"), None);
    assert_eq!(chunk_seq_of("chunk-12"), None);
    assert_eq!(chunk_seq_of("chunk-1a.ogg"), None);
    assert_eq!(chunk_seq_of("x.ogg"), None);
    assert_eq!(chunk_seq_of("Chunk-000001.ogg"), None);
    assert_eq!(chunk_seq_of("chunk-99999999999999999999.ogg"), None);
    assert_eq!(chunk_seq_of("chunk-18446744073709551615.ogg"), Some(u64::MAX));
}

#[test]
fn numbering_resumes_after_the_highest_chunk() {
    assert_eq!(next_chunk_seq(None), Some(0));
    assert_eq!(next_chunk_seq(Some(41)), Some(42));
    assert_eq!(next_chunk_seq(Some(u64::MAX)), None);
}

fn names(xs: &[&str]) -> Vec<String> {
    xs.iter().map(|x| x.to_string()).collect()
}

#[test]
fn restart_resumes_past_the_highest_chunk_on_disk() {
    assert_eq!(next_chunk_seq_after(&names(&[])), Some(0));
    assert_eq!(next_chunk_seq_after(&names(&["notes.txt", ".chunk-000001.webm.partial"])), Some(0));
    assert_eq!(
        next_chunk_seq_after(&names(&[
            "chunk-000003.webm",
            "chunk-000010.ogg",
            "chunk-000007.webm",
            "readme.md",
        ])),
        Some(11)
    );
    assert_eq!(
        next_chunk_seq_after(&names(&["chunk-99999999999999999999.ogg", "chunk-000002.ogg"])),
        Some(3)
    );
    assert_eq!(next_chunk_seq_after(&names(&["chunk-18446744073709551615.ogg"])), None);
}

#[test]
fn archive_event_fields() {
    let ok = raw_event(
        "2026-04-20T21:38:00Z",
        3,
        "audio/chunk-000003.webm",
        ChunkStatus::Transcribed,
        Some("We enter the cave."),
        None,
    );
    assert_eq!(keys(&ok), vec!["audio_path", "seq", "status", "transcript", "ts"]);
    assert_eq!(field(&ok, "seq"), "num:3");
    assert_eq!(field(&ok, "status"), "str:ok");
    assert_eq!(field(&ok, "transcript"), "str:We enter the cave.");

    let skipped = raw_event("t", 4, "a", ChunkStatus::Skipped, None, None);
    assert_eq!(keys(&skipped), vec!["audio_path", "seq", "status", "ts"]);
    assert_eq!(field(&skipped, "status"), "str:skipped");

    let failed = raw_event("t", 5, "a", ChunkStatus::SttError, None, Some("worker died"));
    assert_eq!(keys(&failed), vec!["audio_path", "error", "seq", "status", "ts"]);
    assert_eq!(field(&failed, "status"), "str:stt_error");
    assert_eq!(field(&failed, "error"), "str:worker died");
}
