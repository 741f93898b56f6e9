use ken_core::knowledge_model::{
    json_object_text, parse_extraction, resolve_extraction, RawConnection, RawEntity, RawEvent, RawExtraction,
};

const GOOD: &str = r#"{
    "entities": [
        {"kind": "topic", "name": "Billing cutover", "summary": "The migration.",
         "sources": ["notes/meeting.md"],
         "connections": [{"to": "priya n.", "label": "owned by"},
                         {"to": "Nobody Known", "label": "dangling"},
                         {"to": "Billing cutover", "label": "self"}]},
        {"kind": "person", "name": "Priya N.", "summary": "Owns it.",
         "sources": ["knowledge/People.md"],
         "connections": [{"to": "BILLING CUTOVER", "label": "duplicate pair"}],
         "confidence": 0.9},
        {"kind": "sorcerer", "name": "LangdonSoft", "summary": "Vendor."},
        {"kind": "person", "summary": "no name — dropped"}
    ],
    "events": [
        {"date": "2026-07-11", "category": "Decision Made", "text": "Sign-off confirmed.", "source": "notes/standup.md"},
        {"date": "sometime in July", "category": "decision", "text": "bad date — dropped"},
        {"date": "2026-13-40", "category": "decision", "text": "impossible date — dropped"},
        {"date": "2026-06-26", "text": "No category defaults."},
        {"date": "2026-06-01", "category": "people", "text": ""}
    ],
    "extra": "ignored"
}"#;

#[test]
fn parse_salvages_and_resolves() {
    let ex = parse_extraction(GOOD).unwrap();
    assert_eq!(ex.entities.len(), 3, "nameless entity dropped");
    assert_eq!(ex.entities[0].name, "Billing cutover");
    assert_eq!(ex.entities[2].kind, "other", "unknown kind coerced");
    // Case-insensitive resolution; dangling + self dropped; the reverse
    // duplicate collapsed into the first edge.
    assert_eq!(ex.entities[0].connections, vec![(1, "owned by".to_string())]);
    assert!(ex.entities[1].connections.is_empty());
    // Events: bad/impossible dates and empty text dropped, category
    // normalized to one lowercase word, missing category defaults.
    assert_eq!(ex.events.len(), 2);
    assert_eq!(ex.events[0].category, "decision");
    assert_eq!(ex.events[1].category, "other");
}

#[test]
fn parse_strips_fences_and_prose() {
    let fenced = format!("Here is the model:\n```json\n{GOOD}\n```\nDone!");
    assert_eq!(parse_extraction(&fenced).unwrap(), parse_extraction(GOOD).unwrap());
}

#[test]
fn parse_enforces_caps() {
    let entities: Vec<String> =
        (0..210).map(|i| format!(r#"{{"kind":"topic","name":"E{i}","summary":""}}"#)).collect();
    let events: Vec<String> = (0..160)
        .map(|i| format!(r#"{{"date":"2026-01-{:02}","category":"x","text":"e{i}"}}"#, i % 28 + 1))
        .collect();
    let raw = format!(r#"{{"entities":[{}],"events":[{}]}}"#, entities.join(","), events.join(","));
    let ex = parse_extraction(&raw).unwrap();
    assert_eq!(ex.entities.len(), 200);
    assert_eq!(ex.events.len(), 150);
}

#[test]
fn parse_without_json_is_an_error() {
    assert!(parse_extraction("I couldn't find anything.").is_err());
    assert!(parse_extraction("").is_err());
    assert!(parse_extraction("{not json}").is_err());
    // An empty-but-valid object parses to an empty model.
    let ex = parse_extraction("{}").unwrap();
    assert!(ex.entities.is_empty() && ex.events.is_empty());
}

#[test]
fn the_object_is_framed_from_first_brace_to_last() {
    assert_eq!(json_object_text("say {\"a\": {\"b\": 1}} done").as_deref(), Some("{\"a\": {\"b\": 1}}"));
    assert_eq!(json_object_text("} backwards {"), None);
    assert_eq!(json_object_text("no braces"), None);
    assert_eq!(json_object_text("{}").as_deref(), Some("{}"));
}

#[test]
fn resolution_keeps_the_first_entity_of_a_name_and_the_first_edge_of_a_pair() {
    let ent = |name: &str, to: &[&str]| RawEntity {
        kind: Some(" Person ".into()),
        name: Some(name.into()),
        summary: None,
        sources: vec![Some(" a.md ".into()), None, Some("  ".into())],
        connections: to.iter().map(|t| RawConnection { to: Some(t.to_string()), label: None }).collect(),
    };
    let raw = RawExtraction {
        entities: vec![ent("Ann", &["bob", " BOB "]), ent("Bob", &["ann"]), ent("bob", &["Ann"])],
        events: vec![RawEvent {
            date: Some(" 2026-02-31 ".into()),
            category: Some("   ".into()),
            text: Some(" x ".into()),
            source: Some(" s.md ".into()),
        }],
    };
    let ex = resolve_extraction(&raw);
    assert_eq!(ex.entities[0].kind, "person");
    assert_eq!(ex.entities[0].sources, vec!["a.md".to_string()]);
    assert_eq!(ex.entities[0].connections, vec![(1, String::new())]);
    assert!(ex.entities[1].connections.is_empty());
    assert_eq!(ex.entities[2].connections, vec![(0, String::new())]);
    assert_eq!(ex.events.len(), 1);
    assert_eq!(ex.events[0].date, "2026-02-31");
    assert_eq!(ex.events[0].category, "other");
    assert_eq!(ex.events[0].text, "x");
    assert_eq!(ex.events[0].source, "s.md");
}

#[test]
fn a_non_json_span_reports_the_parser_error() {
    let err = parse_extraction("{not json}").unwrap_err();
    match err {
        ken_core::error::Error::Other(m) => assert!(m.starts_with("the model's answer wasn't valid JSON: "), "{m}"),
        other => panic!("unexpected {other:?}"),
    }
    match parse_extraction("nothing here").unwrap_err() {
        ken_core::error::Error::Other(m) => assert_eq!(m, ken_core::knowledge_model::NO_JSON_OBJECT),
        other => panic!("unexpected {other:?}"),
    }
}
