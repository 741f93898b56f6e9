use ken_core::error::Error;
use ken_core::research::{
    compose_research_prompt, plan_report, slugify, unique_report_name, validate_output_dir, KEN_FOLDER_REFUSAL, SLUG_MAX,
};

#[test]
fn slugify_kebabs_and_caps() {
    assert_eq!(
        slugify("What's the state of EU AI regulation in 2026?"),
        "what-s-the-state-of-eu-ai-regulation-in-2026"
    );
    assert_eq!(slugify("  Hello,   World!  "), "hello-world");
    assert_eq!(slugify("???"), "research");
    assert_eq!(slugify(""), "research");
    let long = slugify("an extremely long question that keeps going and going and going well past any cap");
    assert!(long.len() <= SLUG_MAX, "{long}");
    assert!(!long.ends_with('-'));
    assert!(
        long.split('-').all(|w| "an extremely long question that keeps going and going and going well past any cap"
            .contains(w)),
        "{long}"
    );
}

#[test]
fn slugify_lowercases_beyond_ascii_and_cuts_on_bytes() {
    assert_eq!(slugify("Ärger über Öl"), "ärger-über-öl");
    let long = slugify(&"é".repeat(40));
    assert!(long.len() <= SLUG_MAX);
    assert_eq!(long.chars().count(), 25);
}

#[test]
fn prompt_carries_the_contract() {
    let p = compose_research_prompt(
        "How do heat pumps compare to gas boilers?",
        "research/heat-pumps.md",
        "/proj/research/heat-pumps.md",
    );
    assert!(p.contains("research assistant"));
    assert!(p.contains("How do heat pumps compare to gas boilers?"));
    assert!(p.contains("`research/heat-pumps.md`"));
    assert!(p.contains("OUTPUT_FILE=/proj/research/heat-pumps.md"));
    assert!(p.contains("at least two independent sources"));
    assert!(p.contains("executive summary"));
    assert!(p.contains("What remains uncertain"));
    assert!(p.contains("Sources"));
    assert!(p.contains("still write the report file"));
    assert!(p.contains("writing it is mandatory"));
}

#[test]
fn unique_report_name_suffixes_collisions() {
    let mut taken: Vec<String> = Vec::new();
    assert_eq!(unique_report_name(&taken, "topic"), "topic.md");
    taken.push("topic.md".into());
    assert_eq!(unique_report_name(&taken, "topic"), "topic-2.md");
    taken.push("topic-2.md".into());
    assert_eq!(unique_report_name(&taken, "topic"), "topic-3.md");
}

#[test]
fn plan_report_returns_fresh_relative_path() {
    // The folder's entries stand for what is on disk.
    assert_eq!(plan_report("research", "Solar panels?", &[]).unwrap(), "research/solar-panels.md");
    let taken = vec!["solar-panels.md".to_string()];
    assert_eq!(plan_report("research/", "Solar panels?", &taken).unwrap(), "research/solar-panels-2.md");
}

#[test]
fn validate_output_dir_rejects_escapes_and_ken() {
    assert!(validate_output_dir("../elsewhere").is_err());
    assert!(validate_output_dir("/tmp").is_err());
    assert!(validate_output_dir(".ken").is_err());
    assert!(validate_output_dir(".ken/reports").is_err());
    // Fine even before the folder exists.
    assert!(validate_output_dir("research").is_ok());
    assert!(validate_output_dir("notes/deep").is_ok());
}

#[test]
fn report_folders_are_normalised_and_each_refusal_named() {
    assert_eq!(validate_output_dir("  notes\\deep//  "), Ok("notes/deep".to_string()));
    assert_eq!(validate_output_dir("a/../b"), Err(Error::PathOutsideProject("a/../b".to_string())));
    assert_eq!(validate_output_dir(".ken/x"), Err(Error::Other(KEN_FOLDER_REFUSAL.to_string())));
    assert!(validate_output_dir(".kenny").is_ok());
    assert_eq!(
        Error::PathOutsideProject("../x".into()).message(),
        "path is outside the project: ../x"
    );
    assert_eq!(plan_report("", "What?", &[]).unwrap(), "what.md");
    assert_eq!(plan_report("..", "What?", &[]), Err(Error::PathOutsideProject("..".to_string())));
}
