use adventurer::json::{get_field, get_str, JsonValue};
use adventurer::sync::{GitHubBackend, Method, PushFile, PushPhase, PushSession, SyncError};
use adventurer::workers::{
    audio_extension, check_pong, check_reply, generate_request, next_id, ping_request, pong_mismatch,
    reply_id, tag_request, temp_audio_name, transcribe_request, uuid_simple, LlmSpawnOpts,
    SttSpawnOpts,
};

fn s(x: &str) -> JsonValue {
    JsonValue::Str(x.to_string())
}

fn obj(es: Vec<(&str, JsonValue)>) -> JsonValue {
    JsonValue::Object(es.into_iter().map(|(k, v)| (k.to_string(), v)).collect())
}

fn keys(v: &JsonValue) -> Vec<String> {
    match v {
        JsonValue::Object(es) => es.iter().map(|(k, _)| k.clone()).collect(),
        _ => vec![],
    }
}

#[test]
fn request_ids_count_up_and_differ() {
    let mut c: u64 = 0;
    assert_eq!(next_id(&mut c), "r0");
    assert_eq!(next_id(&mut c), "r1");
    assert_eq!(c, 2);
    let mut top = u64::MAX;
    assert_eq!(next_id(&mut top), "r18446744073709551615");
    assert_eq!(top, 0);
    let a = next_id(&mut c);
    let b = next_id(&mut c);
    assert_ne!(a, b);
}

#[test]
fn file_tokens() {
    let mut c: u64 = 5;
    assert_eq!(uuid_simple(0x1234, &mut c), "0000000000001234-00000005");
    assert_eq!(c, 6);
    let mut big: u64 = 0x1_0000_0000;
    assert_eq!(uuid_simple(0, &mut big), "0000000000000000-100000000");
}

#[test]
fn tagging_a_request() {
    let req = generate_request("sys", "hello", 500);
    let tagged = tag_request(req, "r7".to_string()).unwrap();
    assert_eq!(keys(&tagged), vec!["id", "max_tokens", "prompt", "system", "type"]);
    assert_eq!(reply_id(&tagged), Some("r7".to_string()));
    let retag = tag_request(obj(vec![("id", s("old")), ("type", s("ping"))]), "r8".to_string()).unwrap();
    assert_eq!(keys(&retag), vec!["id", "type"]);
    assert_eq!(get_str(&retag, "id"), Some("r8".to_string()));
    assert_eq!(
        tag_request(s("not an object"), "r9".to_string()).err(),
        Some("request must be a JSON object".to_string())
    );
}

#[test]
fn request_bodies() {
    let g = generate_request("S", "P", -3);
    assert_eq!(keys(&g), vec!["max_tokens", "prompt", "system", "type"]);
    assert!(matches!(get_field(&g, "max_tokens"), Some(JsonValue::Number(t)) if t == "-3"));
    assert_eq!(get_str(&g, "type"), Some("generate".to_string()));
    let t = transcribe_request("/tmp/a.webm", "webm", "en", false);
    assert_eq!(keys(&t), vec!["audio_path", "delete_after", "format", "language", "type"]);
    assert!(matches!(get_field(&t, "delete_after"), Some(JsonValue::Bool(false))));
    assert_eq!(get_str(&t, "type"), Some("transcribe".to_string()));
    let p = ping_request();
    assert_eq!(get_str(&p, "type"), Some("ping".to_string()));
}

#[test]
fn error_replies_fail_the_request() {
    let e = check_reply("llm", obj(vec![("message", s("boom")), ("type", s("error"))]));
    assert_eq!(e.err(), Some("llm worker error: boom".to_string()));
    let e = check_reply("stt", obj(vec![("type", s("error"))]));
    assert_eq!(e.err(), Some("stt worker error: (no message)".to_string()));
    let ok = check_reply("llm", obj(vec![("text", s("hi")), ("type", s("result_"))])).unwrap();
    assert_eq!(get_str(&ok, "text"), Some("hi".to_string()));
}

#[test]
fn pong_check() {
    assert!(check_pong(&obj(vec![("id", s("r0")), ("type", s("pong"))])).is_ok());
    assert_eq!(
        check_pong(&obj(vec![("type", s("result_"))])).err(),
        Some("expected pong, got Some(\"result_\")".to_string())
    );
    assert_eq!(check_pong(&obj(vec![])).err(), Some("expected pong, got None".to_string()));
    assert_eq!(
        check_pong(&obj(vec![("type", s("say \"hi\""))])).err(),
        Some("expected pong, got Some(\"say \\\"hi\\\"\")".to_string())
    );
    assert_eq!(pong_mismatch("x"), "expected pong, got x");
}

#[test]
fn reply_ids() {
    assert_eq!(reply_id(&obj(vec![("id", s("r3"))])), Some("r3".to_string()));
    assert_eq!(reply_id(&obj(vec![("id", JsonValue::Number("3".to_string()))])), None);
    assert_eq!(reply_id(&JsonValue::Null), None);
}

#[test]
fn worker_command_lines() {
    let llm = LlmSpawnOpts {
        program: "/bin/llm".to_string(),
        model: "/m/g.gguf".to_string(),
        n_ctx: 4096,
        gpu_layers: 99,
        extra: Some(vec!["--x".to_string()]),
    };
    assert_eq!(
        llm.worker_args(),
        vec!["--worker", "--model", "/m/g.gguf", "--n-ctx", "4096", "--gpu-layers", "99", "--x"]
    );
    let stt = SttSpawnOpts { program: "/bin/stt".to_string(), model: "/m/w.bin".to_string(), threads: -1 };
    assert_eq!(stt.worker_args(), vec!["--worker", "--model", "/m/w.bin", "--threads", "-1"]);
}

#[test]
fn audio_file_names() {
    assert_eq!(audio_extension("webm"), "webm");
    assert_eq!(audio_extension("opus"), "ogg");
    assert_eq!(audio_extension("mp4"), "m4a");
    assert_eq!(audio_extension("wav"), "wav");
    assert_eq!(audio_extension("mpeg"), "mp3");
    assert_eq!(audio_extension("flac"), "bin");
    assert_eq!(temp_audio_name("abc", "ogg"), "adv-stt-abc.ogg");
}

fn backend() -> GitHubBackend {
    GitHubBackend { repo: "me/log".to_string(), branch: "main".to_string(), pat: "tok".to_string() }
}

#[test]
fn api_urls() {
    let b = backend();
    assert_eq!(b.url("//git/blobs"), "https://api.github.com/repos/me/log/git/blobs");
    assert_eq!(b.url("git/trees"), "https://api.github.com/repos/me/log/git/trees");
    assert_eq!(b.auth_header(), "Bearer tok");
    assert_eq!(b.commit_page("abc"), "https://github.com/me/log/commit/abc");
}

#[test]
fn nothing_to_push() {
    assert!(matches!(PushSession::start(&backend(), "m", vec![]), Err(SyncError::NothingToPush)));
}

#[test]
fn a_push_walks_through_six_steps() {
    let files = vec![
        PushFile { path: "s/transcript.md".to_string(), content: b"hi".to_vec() },
        PushFile { path: "s/state.json".to_string(), content: b"{}".to_vec() },
    ];
    let mut p = PushSession::start(&backend(), "Session archive", files).ok().unwrap();
    let mut urls = vec![];
    let mut bodies = vec![];
    let replies = [
        obj(vec![("object", obj(vec![("sha", s("HEAD"))]))]),
        obj(vec![("tree", obj(vec![("sha", s("PTREE"))]))]),
        obj(vec![("sha", s("B1"))]),
        obj(vec![("sha", s("B2"))]),
        obj(vec![("sha", s("NTREE"))]),
        obj(vec![("sha", s("NCOMMIT"))]),
        obj(vec![]),
    ];
    let mut k = 0;
    while let Some(req) = p.next_request() {
        urls.push((
            match req.method {
                Method::Get => "GET",
                Method::Post => "POST",
                Method::Patch => "PATCH",
            },
            req.url.clone(),
        ));
        bodies.push(req.body);
        let sha = p.sha_in(&replies[k]).unwrap();
        p.on_reply(sha);
        k += 1;
    }
    assert_eq!(k, 2 + 5);
    assert!(matches!(p.next_request(), None));
    let base = "https://api.github.com/repos/me/log/";
    assert_eq!(urls[0], ("GET", format!("{base}git/ref/heads/main")));
    assert_eq!(urls[1], ("GET", format!("{base}git/commits/HEAD")));
    assert_eq!(urls[2], ("POST", format!("{base}git/blobs")));
    assert_eq!(urls[4], ("POST", format!("{base}git/trees")));
    assert_eq!(urls[5], ("POST", format!("{base}git/commits")));
    assert_eq!(urls[6], ("PATCH", format!("{base}git/refs/heads/main")));
    let blob = bodies[2].as_ref().unwrap();
    assert_eq!(get_str(blob, "content"), Some("aGk=".to_string()));
    assert_eq!(get_str(blob, "encoding"), Some("base64".to_string()));
    let tree = bodies[4].as_ref().unwrap();
    assert_eq!(get_str(tree, "base_tree"), Some("PTREE".to_string()));
    match get_field(tree, "tree") {
        Some(JsonValue::Array(es)) => {
            assert_eq!(es.len(), 2);
            assert_eq!(get_str(&es[1], "path"), Some("s/state.json".to_string()));
            assert_eq!(get_str(&es[1], "sha"), Some("B2".to_string()));
            assert_eq!(get_str(&es[0], "mode"), Some("100644".to_string()));
            assert_eq!(keys(&es[0]), vec!["mode", "path", "sha", "type"]);
        }
        _ => panic!("tree entries expected"),
    }
    let commit = bodies[5].as_ref().unwrap();
    assert_eq!(keys(commit), vec!["message", "parents", "tree"]);
    assert_eq!(get_str(commit, "tree"), Some("NTREE".to_string()));
    let upd = bodies[6].as_ref().unwrap();
    assert_eq!(get_str(upd, "sha"), Some("NCOMMIT".to_string()));
    assert!(matches!(get_field(upd, "force"), Some(JsonValue::Bool(false))));
    let res = p.result().unwrap();
    assert_eq!(res.commit_sha, "NCOMMIT");
    assert_eq!(res.commit_url, "https://github.com/me/log/commit/NCOMMIT");
    assert_eq!(res.files, 2);
}

#[test]
fn reply_without_sha_is_noticed() {
    let files = vec![PushFile { path: "a".to_string(), content: vec![] }];
    let p = PushSession::start(&backend(), "m", files).ok().unwrap();
    assert!(p.sha_in(&obj(vec![("sha", s("x"))])).is_none());
    assert!(p.result().is_none());
    let _ = PushPhase::Done;
}

#[test]
fn a_failed_step_ends_the_push() {
    let files = vec![PushFile { path: "a".to_string(), content: b"x".to_vec() }];
    let mut p = PushSession::start(&backend(), "m", files).ok().unwrap();
    let head = obj(vec![("object", obj(vec![("sha", s("HEAD"))]))]);
    let sha = p.sha_in(&head).unwrap();
    p.on_reply(sha);
    assert!(p.next_request().is_some());
    p.fail();
    assert!(p.next_request().is_none());
    p.on_reply("late".to_string());
    assert!(p.next_request().is_none());
    assert!(p.result().is_none());
}

#[test]
fn tokens_have_their_shape_and_differ() {
    let mut c: u64 = 0;
    let a = uuid_simple(u64::MAX, &mut c);
    let b = uuid_simple(u64::MAX, &mut c);
    assert_ne!(a, b);
    for t in [&a, &b] {
        assert_eq!(t.len(), 25);
        assert_eq!(&t[16..17], "-");
        assert!(t.chars().enumerate().all(|(i, ch)| i == 16 || ch.is_ascii_hexdigit() && !ch.is_ascii_uppercase()));
    }
    assert_eq!(a, "ffffffffffffffff-00000000");
}
