use adventurer::embed::{bust_cache, not_found_text, static_content_type, INDEX_MISSING};
use adventurer::engine::{cfg_backend, default_threads, full_prompt, plan_generation, Generation};
use adventurer::json::{get_field, get_str, JsonValue};
use adventurer::lan::{join_url, pick_lan_ip, qr_result, qr_svg};
use adventurer::llm_bench::{
    bench_prompt, default_max_tokens, json_slice, ollama_body, ollama_url, summarize_state,
};
use adventurer::players::Players;
use adventurer::poc::{args_for_blocking, PocArgs};
use adventurer::stt_bench::{
    default_format, default_language, ffmpeg_decode_args, ffmpeg_stdin_args,
    ffprobe_duration_args, mime_for, speaches_url, transcript_verdict, TranscriptVerdict,
};
use adventurer::ws::{on_event, on_open, SocketAction, SocketEvent};

fn obj(es: Vec<(&str, JsonValue)>) -> JsonValue {
    JsonValue::Object(es.into_iter().map(|(k, v)| (k.to_string(), v)).collect())
}

fn keys(v: &JsonValue) -> Vec<String> {
    match v {
        JsonValue::Object(es) => es.iter().map(|(k, _)| k.clone()).collect(),
        _ => vec![],
    }
}

#[test]
fn bench_defaults() {
    assert_eq!(default_max_tokens(), 500);
    assert_eq!(default_format(), "webm");
    assert_eq!(default_language(), "en");
}

#[test]
fn bench_prompt_fills_template() {
    let t = "state={CURRENT_STATE}\nparty={PARTY_DATA}\nlog={TRANSCRIPT}";
    assert_eq!(
        bench_prompt(t, "  we camp  \n", "\n Aryn, fighter \n"),
        "state={}\nparty=Aryn, fighter\nlog=we camp"
    );
    let long = "x".repeat(2500) + " END";
    let p = bench_prompt("{TRANSCRIPT}", &long, "");
    assert_eq!(p.len(), 2000);
    assert!(p.ends_with(" END"));
}

#[test]
fn ollama_request() {
    assert_eq!(ollama_url("http://localhost:11434"), "http://localhost:11434/api/generate");
    let b = ollama_body("gemma4:e4b", "P", "S", 4096, 350);
    assert_eq!(keys(&b), vec!["model", "options", "prompt", "stream", "system"]);
    let o = get_field(&b, "options").unwrap();
    assert_eq!(keys(o), vec!["num_ctx", "num_predict", "repeat_penalty", "temperature", "top_k", "top_p"]);
    assert!(matches!(get_field(o, "num_ctx"), Some(JsonValue::Number(t)) if t == "4096"));
    assert!(matches!(get_field(o, "temperature"), Some(JsonValue::Number(t)) if t == "0.1"));
    assert!(matches!(get_field(&b, "stream"), Some(JsonValue::Bool(false))));
}

#[test]
fn json_span_of_an_answer() {
    assert_eq!(json_slice("```json\n{\"a\":{}}\n```"), Some("{\"a\":{}}".to_string()));
    assert_eq!(json_slice("x { a } y } z"), Some("{ a } y }".to_string()));
    assert_eq!(json_slice("} before {"), None);
    assert_eq!(json_slice("nothing"), None);
}

#[test]
fn state_summary() {
    let v = obj(vec![
        ("characters", obj(vec![("A", JsonValue::Null), ("B", JsonValue::Null)])),
        ("location", JsonValue::Str("inn".to_string())),
    ]);
    let s = summarize_state(&v);
    assert!(s.has_location && s.has_characters);
    assert_eq!(s.n_characters, 2);
    let s = summarize_state(&obj(vec![("characters", JsonValue::Array(vec![]))]));
    assert!(!s.has_location && s.has_characters);
    assert_eq!(s.n_characters, 0);
}

#[test]
fn mime_by_extension() {
    assert_eq!(mime_for("clip.MP3"), "audio/mpeg");
    assert_eq!(mime_for("a.b.webm"), "audio/webm");
    assert_eq!(mime_for("x.opus"), "audio/ogg");
    assert_eq!(mime_for("x.m4a"), "audio/mp4");
    assert_eq!(mime_for("x.flac"), "audio/flac");
    assert_eq!(mime_for("x.wav"), "audio/wav");
    assert_eq!(mime_for("wav"), "audio/wav");
    assert_eq!(mime_for("audio"), "application/octet-stream");
    assert_eq!(mime_for("x."), "application/octet-stream");
}

#[test]
fn transcript_judgement() {
    assert!(matches!(transcript_verdict(" \n\t "), TranscriptVerdict::Empty));
    match transcript_verdict("  hello there  ") {
        TranscriptVerdict::Short { words, chars } => {
            assert_eq!(words, 2);
            assert_eq!(chars, 11);
        }
        _ => panic!("two words are short"),
    }
    match transcript_verdict("one two\tthree\nfour  five") {
        TranscriptVerdict::Fine { words, chars } => {
            assert_eq!(words, 5);
            assert_eq!(chars, 24);
        }
        _ => panic!("five words are fine"),
    }
}

#[test]
fn decoder_command_lines() {
    assert_eq!(
        ffmpeg_decode_args("/a.mp3", "-"),
        vec!["-hide_banner", "-loglevel", "error", "-i", "/a.mp3", "-ar", "16000", "-ac", "1", "-f", "f32le", "-"]
    );
    assert_eq!(ffmpeg_stdin_args("webm")[3..7], ["-f", "webm", "-i", "pipe:0"]);
    assert_eq!(
        ffprobe_duration_args("/a.mp3"),
        vec!["-v", "error", "-show_entries", "format=duration", "-of", "default=nw=1:nk=1", "/a.mp3"]
    );
    assert_eq!(speaches_url("http://h:8000"), "http://h:8000/v1/audio/transcriptions");
}

#[test]
fn prompt_and_plan() {
    assert_eq!(full_prompt("", "p"), "p");
    assert_eq!(full_prompt("sys", "p"), "sys\n\np");
    let plan = plan_generation(10, 100);
    assert_eq!(plan.n_len, 110);
    assert_eq!(plan.batch_size, 512);
    assert_eq!(plan.last_index, 9);
    assert_eq!(plan_generation(600, 100).batch_size, 700);
}

#[test]
fn generation_stops_at_limit_or_end_token() {
    let plan = plan_generation(3, 2);
    let mut g = Generation::start(3, plan.n_len);
    let mut positions = vec![];
    while g.wants_more() {
        match g.accept(false, "ab") {
            Some(p) => positions.push(p),
            None => break,
        }
    }
    assert_eq!(positions, vec![3, 4]);
    assert_eq!(g.finish(), ("abab".to_string(), 2));

    let mut g = Generation::start(3, plan_generation(3, 0).n_len);
    assert!(!g.wants_more());
    assert_eq!(g.finish(), (String::new(), 0));

    let mut g = Generation::start(3, 100);
    assert_eq!(g.accept(false, "x"), Some(3));
    assert_eq!(g.accept(true, "ignored"), None);
    assert!(!g.wants_more());
    assert_eq!(g.finish(), ("x".to_string(), 1));
}

#[test]
fn streamed_pieces_join_to_the_output() {
    let tokens = [(false, "The "), (false, "cave "), (false, "is dark."), (true, ""), (false, "never")];
    let mut g = Generation::start(5, plan_generation(5, 10).n_len);
    let mut streamed = String::new();
    let mut i = 0;
    while g.wants_more() && i < tokens.len() {
        let (eog, piece) = tokens[i];
        i += 1;
        if !eog {
            streamed.push_str(piece);
        }
        if g.accept(eog, piece).is_none() {
            break;
        }
    }
    let (text, n) = g.finish();
    assert_eq!(text, "The cave is dark.");
    assert_eq!(streamed, text);
    assert_eq!(n, 3);
}

#[test]
fn threads_and_backend() {
    assert_eq!(default_threads(Some(4)), 4);
    assert_eq!(default_threads(Some(64)), 16);
    assert_eq!(default_threads(None), 8);
    assert_eq!(cfg_backend(false, false, false), "cpu");
    assert_eq!(cfg_backend(true, true, false), "cuda");
    assert_eq!(cfg_backend(false, true, true), "vulkan");
    assert_eq!(cfg_backend(false, false, true), "metal");
}

#[test]
fn join_links() {
    assert_eq!(join_url("192.168.1.5", 3210, None), "http://192.168.1.5:3210/join");
    assert_eq!(join_url("1.2.3.4", 80, Some("https://adv.example.net//")), "https://adv.example.net/join");
    assert_eq!(join_url("1.2.3.4", 80, Some("https://adv.example.net")), "https://adv.example.net/join");
}

#[test]
fn qr_code_svg() {
    let svg = qr_svg("https://adv.example.net/join").unwrap();
    assert!(svg.contains("<svg"));
    assert!(svg.contains("#0e1116"));
    assert_ne!(svg, "https://adv.example.net/join");
    assert_eq!(qr_result(None).err(), Some("encode QR".to_string()));
    assert!(qr_svg(&"x".repeat(8000)).is_err());
}

#[test]
fn index_cache_busting() {
    let html = "<link href=\"/static/style.css\"><script src=\"/static/stage.js\"></script>";
    assert_eq!(
        bust_cache(html, 1700000000),
        "<link href=\"/static/style.css?v=1700000000\"><script src=\"/static/stage.js?v=1700000000\"></script>"
    );
    assert_eq!(bust_cache("/static/style.css", 1), "/static/style.css");
}

#[test]
fn static_files() {
    assert_eq!(static_content_type("style.css"), "text/css");
    assert_eq!(static_content_type("img/logo.png"), "image/png");
    assert_eq!(static_content_type("noext"), "application/octet-stream");
    assert_eq!(not_found_text("x.js"), "not found: x.js");
    assert_eq!(INDEX_MISSING, "index.html not embedded");
}

#[test]
fn socket_decisions() {
    assert!(matches!(on_open(Some("{}".to_string())), SocketAction::SendText(t) if t == "{}"));
    assert!(matches!(on_open(None), SocketAction::Continue));
    assert!(matches!(on_event(SocketEvent::Broadcast(Some("e".to_string()))), SocketAction::SendText(t) if t == "e"));
    assert!(matches!(on_event(SocketEvent::Broadcast(None)), SocketAction::Continue));
    assert!(matches!(on_event(SocketEvent::Lagged(5)), SocketAction::Continue));
    assert!(matches!(on_event(SocketEvent::ChannelClosed), SocketAction::Stop));
    assert!(matches!(on_event(SocketEvent::ClientClosed), SocketAction::Stop));
    assert!(matches!(on_event(SocketEvent::ClientPing(vec![1, 2])), SocketAction::SendPong(p) if p == vec![1, 2]));
    assert!(matches!(on_event(SocketEvent::ClientOther), SocketAction::Continue));
    assert!(matches!(on_event(SocketEvent::ClientError), SocketAction::Stop));
}

#[test]
fn players_are_remembered() {
    let mut ps = Players::new();
    let a = ps.touch("tok-a", None, 100);
    assert_eq!(a.first_seen, 100);
    assert_eq!(a.label, None);
    let a = ps.touch("tok-a", Some("iPad".to_string()), 200);
    assert_eq!(a.first_seen, 100);
    assert_eq!(a.last_seen, 200);
    assert_eq!(a.label.as_deref(), Some("iPad"));
    let a = ps.touch("tok-a", Some("Phone".to_string()), 300);
    assert_eq!(a.label.as_deref(), Some("iPad"));
    assert_eq!(ps.assign_character("tok-a", Some("aryn".to_string())).unwrap().character.as_deref(), Some("aryn"));
    assert!(ps.assign_character("nobody", Some("x".to_string())).is_none());
    let a = ps.touch("tok-a", None, 400);
    assert_eq!(a.character.as_deref(), Some("aryn"));
    ps.touch("tok-0", None, 500);
    let all = ps.list();
    assert_eq!(all.len(), 2);
    assert_eq!(all[0].token, "tok-0");
    assert_eq!(ps.get("tok-a").unwrap().last_seen, 400);
    assert!(ps.get("zzz").is_none());
}

#[test]
fn blocking_args() {
    let a = PocArgs {
        model: "/m.gguf".to_string(),
        prompt: "p.txt".to_string(),
        transcript: "t.md".to_string(),
        party: "party.md".to_string(),
        max_tokens: 350,
        n_ctx: 4096,
        gpu_layers: 0,
        ollama: false,
        ollama_base: "http://localhost:11434".to_string(),
        ollama_model: "gemma4:e4b".to_string(),
    };
    let l = args_for_blocking(&a);
    assert_eq!(l.model, "/m.gguf");
    assert_eq!((l.n_ctx, l.gpu_layers, l.max_tokens), (4096, 0, 350));
}

#[test]
fn generic_get_str() {
    assert_eq!(get_str(&obj(vec![("a", JsonValue::Str("b".to_string()))]), "a"), Some("b".to_string()));
}

#[test]
fn lan_address_priority() {
    assert_eq!(pick_lan_ip(Some("10.0.0.2".to_string()), Some("192.168.1.9".to_string())), "10.0.0.2");
    assert_eq!(pick_lan_ip(None, Some("192.168.1.9".to_string())), "192.168.1.9");
    assert_eq!(pick_lan_ip(None, None), "127.0.0.1");
}
