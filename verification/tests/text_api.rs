use adventurer::api::{
    accept_transcription, clock_text, get_transcript, mime_to_ffmpeg_format, slugify, CharacterIn,
    VoiceOutcome,
};
use adventurer::config::{default_path, join_path, GitHubConfig};
use adventurer::fmt::{dec_padded, hex_padded, i64_text, u64_text};
use adventurer::lines::last_lines;
use adventurer::state::{AppState, Event};
use adventurer::text::{replace, trimmed};

#[test]
fn slug_of_a_name() {
    assert_eq!(slugify("Aryn the Bold!"), "aryn-the-bold");
    assert_eq!(slugify("--Hello  World--"), "hello-world");
    assert_eq!(slugify(""), "");
    assert_eq!(slugify("!!!"), "");
    assert_eq!(slugify("Ünïcode"), "n-code");
    assert_eq!(slugify("R2-D2"), "r2-d2");
}

#[test]
fn slug_is_idempotent() {
    for name in ["Aryn the Bold!", "  Zed  ", "a--b", "Sir Élan of 3 Towers"] {
        let once = slugify(name);
        assert_eq!(slugify(&once), once);
    }
}

#[test]
fn character_slug() {
    let c = CharacterIn {
        name: "Mira Swiftfoot".to_string(),
        char_class: "Rogue".to_string(),
        hp_current: 9,
        hp_max: 12,
        ac: 14,
        notes: String::new(),
    };
    assert_eq!(c.slug(), "mira-swiftfoot");
}

#[test]
fn ffmpeg_format_from_mime() {
    assert_eq!(mime_to_ffmpeg_format("audio/webm;codecs=opus"), "webm");
    assert_eq!(mime_to_ffmpeg_format("audio/ogg"), "ogg");
    assert_eq!(mime_to_ffmpeg_format("audio/opus"), "ogg");
    assert_eq!(mime_to_ffmpeg_format("audio/MP4"), "mp4");
    assert_eq!(mime_to_ffmpeg_format("audio/x-m4a"), "mp4");
    assert_eq!(mime_to_ffmpeg_format("audio/x-wav"), "wav");
    assert_eq!(mime_to_ffmpeg_format("audio/mpeg"), "mp3");
    assert_eq!(mime_to_ffmpeg_format("text/plain"), "webm");
}

#[test]
fn clock_is_zero_padded() {
    assert_eq!(clock_text(9, 5, 7), "09:05:07");
    assert_eq!(clock_text(23, 59, 0), "23:59:00");
}

#[test]
fn number_texts() {
    assert_eq!(u64_text(0), "0");
    assert_eq!(u64_text(18446744073709551615), "18446744073709551615");
    assert_eq!(i64_text(-42), "-42");
    assert_eq!(i64_text(i64::MIN), "-9223372036854775808");
    assert_eq!(hex_padded(255, 4), "00ff");
    assert_eq!(hex_padded(0x123456, 2), "123456");
    assert_eq!(dec_padded(7, 3), "007");
}

#[test]
fn replace_and_trim() {
    assert_eq!(replace("aaa", "aa", "b"), "ba");
    assert_eq!(replace("x{A}y{A}", "{A}", "-"), "x-y-");
    assert_eq!(trimmed("\u{3000} hi \n"), "hi");
}

#[test]
fn last_lines_of_text() {
    assert_eq!(last_lines("a\nb\nc", 2), "b\nc");
    assert_eq!(last_lines("a\r\nb\n", 5), "a\nb");
    assert_eq!(last_lines("", 3), "");
}

#[test]
fn new_session_has_placeholder_panels() {
    let app = AppState::new("/tmp/session".to_string());
    let snap = app.snapshot();
    assert_eq!(snap.transcript, "");
    assert_eq!(snap.panels.len(), 5);
    assert_eq!(
        snap.panels.get("scene").map(|s| s.as_str()),
        Some("## PANEL: scene\n\n*New session.*\n")
    );
    assert_eq!(
        snap.panels.get("next-steps").map(|s| s.as_str()),
        Some("## PANEL: next-steps\n\n*New session.*\n")
    );
    assert!(snap.panels.get("decision").is_none());
    assert_eq!(app.session_dir(), "/tmp/session");
}

#[test]
fn appending_keeps_what_was_there() {
    let mut app = AppState::new("/tmp/s".to_string());
    let (full, tail) = app.append_transcript("first");
    assert_eq!(full, "first");
    assert_eq!(tail, "first");
    let (full, _) = app.append_transcript("second");
    assert_eq!(full, "first\nsecond");
    let (full, _) = app.append_transcript("\nthird");
    assert_eq!(full, "first\nsecond\n\nthird");
    assert!(full.starts_with("first\nsecond"));
}

#[test]
fn event_tail_is_last_twelve_lines() {
    let mut app = AppState::new("/tmp/s".to_string());
    for i in 0..20 {
        app.append_transcript(&format!("line {i}"));
    }
    let (_, tail) = app.append_transcript("line 20");
    let expected: Vec<String> = (9..=20).map(|i| format!("line {i}")).collect();
    assert_eq!(tail, expected.join("\n"));
    let view = get_transcript(&app);
    let expected8: Vec<String> = (13..=20).map(|i| format!("line {i}")).collect();
    assert_eq!(view.tail, expected8.join("\n"));
    assert_eq!(view.content, app.current_transcript());
}

#[test]
fn blank_speech_changes_nothing() {
    let mut app = AppState::new("/tmp/s".to_string());
    match accept_transcription(&mut app, "  \n ", "10:00:00") {
        VoiceOutcome::Silent => {}
        _ => panic!("blank text must be silent"),
    }
    assert_eq!(app.current_transcript(), "");
}

#[test]
fn speech_becomes_a_stamped_line() {
    let mut app = AppState::new("/tmp/s".to_string());
    match accept_transcription(&mut app, "  We enter the cave. ", &clock_text(21, 3, 9)) {
        VoiceOutcome::Appended { text, event } => {
            assert_eq!(text, "We enter the cave.");
            match event {
                Event::Transcript { content, tail } => {
                    assert_eq!(content, "\n**[21:03:09]** We enter the cave.");
                    assert_eq!(tail, "\n**[21:03:09]** We enter the cave.");
                }
                _ => panic!("expected a transcript event"),
            }
        }
        VoiceOutcome::Silent => panic!("text was not blank"),
    }
}

#[test]
fn config_updates() {
    let mut c = GitHubConfig::default();
    assert!(!c.is_ready());
    assert_eq!(c.branch_or_main(), "main");
    c.apply_update(Some("me/log".to_string()), None, Some("tok".to_string()));
    assert!(c.is_ready());
    c.apply_update(None, Some("dev".to_string()), Some(String::new()));
    assert_eq!(c.repo.as_deref(), Some("me/log"));
    assert_eq!(c.branch_or_main(), "dev");
    assert_eq!(c.pat, None);
    assert!(!c.is_ready());
    let before = c.copy();
    c.apply_update(None, Some("dev".to_string()), None);
    c.apply_update(None, Some("dev".to_string()), None);
    assert_eq!(c.branch, before.branch);
}

#[test]
fn environment_wins_even_when_empty() {
    let mut c = GitHubConfig::default();
    c.apply_update(Some("a/b".to_string()), None, None);
    c.apply_env(Some(String::new()), Some("c/d".to_string()), None);
    assert_eq!(c.pat.as_deref(), Some(""));
    assert_eq!(c.repo.as_deref(), Some("c/d"));
    assert_eq!(c.branch, None);
}

#[test]
fn settings_path() {
    assert_eq!(default_path(Some("/data"), Some("/home/u")), "/data/adventurer/config.json");
    assert_eq!(default_path(None, Some("/home/u")), "/home/u/.local/share/adventurer/config.json");
    assert_eq!(default_path(None, None), "/root/.local/share/adventurer/config.json");
    assert_eq!(default_path(Some("/data/"), None), "/data/adventurer/config.json");
    assert_eq!(join_path("/a", "/b"), "/b");
    assert_eq!(join_path("", "b"), "b");
}

#[test]
fn whisper_sentinels_are_dropped() {
    let mut app = AppState::new("/tmp/s".to_string());
    for t in ["[BLANK_AUDIO]", "  [silence] \n", "[inaudible]"] {
        assert!(matches!(accept_transcription(&mut app, t, "10:00:00"), VoiceOutcome::Silent));
    }
    assert_eq!(app.current_transcript(), "");
    match accept_transcription(&mut app, "[paper rustling]", "10:00:01") {
        VoiceOutcome::Appended { text, .. } => assert_eq!(text, "[paper rustling]"),
        VoiceOutcome::Silent => panic!("ambient captures are kept"),
    }
    assert_eq!(app.current_transcript(), "\n**[10:00:01]** [paper rustling]");
}
