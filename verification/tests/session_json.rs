use adventurer::gemma::{
    apply_panel_pass, apply_state_pass, extract_first_json_object, panel_pass_prompt,
    panel_prompt, state_pass_prompt, state_prompt, transcript_tail, GemmaConfig,
    NO_PARTY_DATA, PANEL_PROMPT_HEAD,
};
use adventurer::json::{deep_merge, get_field, get_str, merge_value, object_insert, JsonValue};
use adventurer::panels::parse_panels;
use adventurer::state::{AppState, Event};

fn s(x: &str) -> JsonValue {
    JsonValue::Str(x.to_string())
}

fn n(x: &str) -> JsonValue {
    JsonValue::Number(x.to_string())
}

fn obj(es: Vec<(&str, JsonValue)>) -> JsonValue {
    JsonValue::Object(es.into_iter().map(|(k, v)| (k.to_string(), v)).collect())
}

fn keys(v: &JsonValue) -> Vec<String> {
    match v {
        JsonValue::Object(es) => es.iter().map(|(k, _)| k.clone()).collect(),
        _ => vec![],
    }
}

fn text(v: Option<&JsonValue>) -> Option<String> {
    match v {
        Some(JsonValue::Str(t)) => Some(t.clone()),
        Some(JsonValue::Number(t)) => Some(t.clone()),
        _ => None,
    }
}

#[test]
fn null_never_overwrites() {
    let mut dst = obj(vec![("location", s("Tavern"))]);
    deep_merge(&mut dst, &JsonValue::Null);
    assert_eq!(text(get_field(&dst, "location")), Some("Tavern".to_string()));
    let mut dst = obj(vec![("location", s("Tavern"))]);
    deep_merge(&mut dst, &obj(vec![("location", JsonValue::Null)]));
    assert_eq!(text(get_field(&dst, "location")), Some("Tavern".to_string()));
}

#[test]
fn new_null_key_is_added_as_null() {
    let mut dst = obj(vec![("a", n("1"))]);
    deep_merge(&mut dst, &obj(vec![("b", JsonValue::Null)]));
    assert_eq!(keys(&dst), vec!["a", "b"]);
    assert!(matches!(get_field(&dst, "b"), Some(JsonValue::Null)));
}

#[test]
fn objects_merge_field_by_field() {
    let mut dst = obj(vec![
        ("characters", obj(vec![("Aryn", obj(vec![("hp", n("10")), ("ac", n("15"))]))])),
        ("location", s("Road")),
    ]);
    let src = obj(vec![
        ("characters", obj(vec![("Aryn", obj(vec![("hp", n("7"))])), ("Bex", obj(vec![]))])),
        ("time", s("night")),
    ]);
    deep_merge(&mut dst, &src);
    assert_eq!(keys(&dst), vec!["characters", "location", "time"]);
    let chars = get_field(&dst, "characters").unwrap();
    assert_eq!(keys(chars), vec!["Aryn", "Bex"]);
    let aryn = get_field(chars, "Aryn").unwrap();
    assert_eq!(text(get_field(aryn, "hp")), Some("7".to_string()));
    assert_eq!(text(get_field(aryn, "ac")), Some("15".to_string()));
    assert_eq!(text(get_field(&dst, "location")), Some("Road".to_string()));
}

#[test]
fn other_values_replace() {
    let r = merge_value(obj(vec![("a", n("1"))]), &s("flat"));
    assert!(matches!(r, JsonValue::Str(ref t) if t == "flat"));
    let r = merge_value(n("1"), &obj(vec![("a", n("2"))]));
    assert_eq!(keys(&r), vec!["a"]);
    let r = merge_value(
        JsonValue::Array(vec![n("1")]),
        &JsonValue::Array(vec![n("2"), n("3")]),
    );
    match r {
        JsonValue::Array(xs) => assert_eq!(xs.len(), 2),
        _ => panic!("arrays replace"),
    }
}

#[test]
fn object_insert_replaces_or_adds_in_key_order() {
    let mut es = vec![("b".to_string(), n("1")), ("d".to_string(), n("2"))];
    object_insert(&mut es, "c".to_string(), n("3"));
    object_insert(&mut es, "b".to_string(), n("4"));
    let v = JsonValue::Object(es);
    assert_eq!(keys(&v), vec!["b", "c", "d"]);
    assert_eq!(text(get_field(&v, "b")), Some("4".to_string()));
    assert_eq!(get_str(&v, "b"), None);
}

#[test]
fn state_pass_merges_and_reports() {
    let mut app = AppState::new("/tmp/s".to_string());
    let ev = apply_state_pass(&mut app, &obj(vec![("location", s("Cave"))]));
    match ev {
        Event::State { data } => assert_eq!(text(get_field(&data, "location")), Some("Cave".to_string())),
        _ => panic!("expected a state event"),
    }
    let snap = app.snapshot();
    assert_eq!(text(get_field(&snap.state, "location")), Some("Cave".to_string()));
}

#[test]
fn first_json_object() {
    assert_eq!(extract_first_json_object("```json\n{\"a\": {\"b\": 1}} trailing }\n```"), Some("{\"a\": {\"b\": 1}}"));
    assert_eq!(extract_first_json_object("Sure! {\"x\":1}{\"y\":2}"), Some("{\"x\":1}"));
    assert_eq!(extract_first_json_object("no object here"), None);
    assert_eq!(extract_first_json_object("{ unbalanced"), None);
    assert_eq!(extract_first_json_object("   "), None);
}

#[test]
fn tail_is_last_bytes() {
    assert_eq!(transcript_tail("hello world", 5), "world");
    assert_eq!(transcript_tail("short", 10), "short");
    assert_eq!(transcript_tail("añb", 3), "ñb");
}

#[test]
fn state_prompt_fills_placeholders_in_order() {
    let t = "S={CURRENT_STATE} P={PARTY_DATA} T={TRANSCRIPT}";
    assert_eq!(
        state_prompt(t, "{\"a\":1}", "we fight"),
        format!("S={{\"a\":1}} P={NO_PARTY_DATA} T=we fight")
    );
    // a state that itself mentions a later placeholder gets it filled too
    assert_eq!(state_prompt("{CURRENT_STATE}", "{TRANSCRIPT}", "x"), "x");
}

#[test]
fn pass_prompts() {
    assert_eq!(state_pass_prompt("{TRANSCRIPT}", " \n ", "{}"), None);
    assert_eq!(panel_pass_prompt("   ", "{}"), None);
    assert_eq!(state_pass_prompt("<{TRANSCRIPT}>", "  hi there \n", "{}"), Some("<hi there>".to_string()));
    let p = panel_pass_prompt(" we rest ", "{}").unwrap();
    assert_eq!(p, format!("{PANEL_PROMPT_HEAD}{{}}\n\nTranscript:\nwe rest\n"));
    assert_eq!(panel_prompt("S", "T"), format!("{PANEL_PROMPT_HEAD}S\n\nTranscript:\nT\n"));
    assert!(PANEL_PROMPT_HEAD.ends_with("Current game state:\n"));
}

#[test]
fn gemma_defaults() {
    let c = GemmaConfig::default();
    assert_eq!(c.state_debounce_ms, 6000);
    assert_eq!(c.panel_debounce_ms, 12000);
    assert_eq!(c.state_max_tokens, 350);
    assert_eq!(c.panel_max_tokens, 1400);
}

#[test]
fn panel_blocks_are_parsed() {
    let answer = "Here you go.\n## PANEL: Scene\nThe tavern burns.\n\n## PANEL: map\nnode: t | Tavern | room\n## DECISION: flee\nignored";
    let p = parse_panels(answer);
    assert_eq!(p.len(), 2);
    assert_eq!(p.get("map").map(|s| s.as_str()), Some("## PANEL: map\n\nnode: t | Tavern | room"));
    assert_eq!(p.get("scene").map(|s| s.as_str()), Some("## PANEL: scene\n\nThe tavern burns."));
}

#[test]
fn later_block_wins_and_end_of_text_closes() {
    let p = parse_panels("## PANEL: party\nold\n## PANEL: PARTY\nnew  ");
    assert_eq!(p.len(), 1);
    assert_eq!(p.get("party").map(|s| s.as_str()), Some("## PANEL: party\n\nnew"));
    assert_eq!(parse_panels("no panels").len(), 0);
    assert_eq!(parse_panels(" ## PANEL: x\nbody").len(), 0);
}

#[test]
fn panel_pass_updates_only_named_panels() {
    let mut app = AppState::new("/tmp/s".to_string());
    let ev = apply_panel_pass(&mut app, "## PANEL: scene\nDawn breaks.");
    assert!(matches!(ev, Some(Event::Panels { .. })));
    let snap = app.snapshot();
    assert_eq!(snap.panels.get("scene").map(|s| s.as_str()), Some("## PANEL: scene\n\nDawn breaks."));
    assert_eq!(
        snap.panels.get("map").map(|s| s.as_str()),
        Some("## PANEL: map\n\n*New session.*\n")
    );
    assert!(apply_panel_pass(&mut app, "nothing useful").is_none());
}

#[test]
fn braces_inside_strings_do_not_count() {
    assert_eq!(extract_first_json_object("{\"s\":\"}\"}"), Some("{\"s\":\"}\"}"));
    assert_eq!(extract_first_json_object("x {\"a\":\"\\\"}{\"} y} z"), Some("{\"a\":\"\\\"}{\"}"));
    assert_eq!(extract_first_json_object("{\"open\":\"}"), None);
}

#[test]
fn merging_twice_is_merging_once() {
    let dst = obj(vec![("a", n("1")), ("c", obj(vec![("x", n("1"))]))]);
    let src = obj(vec![("b", JsonValue::Null), ("c", obj(vec![("y", s("z"))])), ("d", s("q"))]);
    let once = merge_value(dst, &src);
    let twice = merge_value(once_copy(&once), &src);
    assert_eq!(dump(&twice), dump(&once));
    assert_eq!(dump(&once), "{\"a\":1,\"b\":null,\"c\":{\"x\":1,\"y\":\"z\"},\"d\":\"q\"}");
}

#[test]
fn merging_twice_is_merging_once_for_any_key_order() {
    let dst = n("7");
    let src = obj(vec![("z", obj(vec![("q", n("2")), ("p", n("1"))])), ("a", JsonValue::Null)]);
    let once = merge_value(dst, &src);
    let twice = merge_value(once_copy(&once), &src);
    assert_eq!(dump(&twice), dump(&once));
    assert_eq!(dump(&once), "{\"z\":{\"q\":2,\"p\":1},\"a\":null}");

    let repeated = obj(vec![("k", n("1")), ("k", n("2"))]);
    let once = merge_value(n("7"), &repeated);
    let twice = merge_value(once_copy(&once), &repeated);
    assert_eq!(dump(&once), "{\"k\":1,\"k\":2}");
    assert_eq!(dump(&twice), "{\"k\":2,\"k\":2}");
}

fn once_copy(v: &JsonValue) -> JsonValue {
    adventurer::json::deep_clone(v)
}

fn dump(v: &JsonValue) -> String {
    match v {
        JsonValue::Null => "null".to_string(),
        JsonValue::Bool(b) => b.to_string(),
        JsonValue::Number(t) => t.clone(),
        JsonValue::Str(t) => format!("{t:?}"),
        JsonValue::Array(xs) => format!("[{}]", xs.iter().map(dump).collect::<Vec<_>>().join(",")),
        JsonValue::Object(es) => format!(
            "{{{}}}",
            es.iter().map(|(k, x)| format!("{k:?}:{}", dump(x))).collect::<Vec<_>>().join(",")
        ),
    }
}
