use ken_core::error::Error;
use ken_core::recipe::{
    default_rules, ingests_dir, recipe_path, resolve_rules, split_frontmatter, validate, Mode, Recipe,
    Refresh, RulesOverride,
};
use std::path::{Path, PathBuf};

#[test]
fn crlf_and_missing_frontmatter() {
    assert!(split_frontmatter("---\r\nname: x\n---\nbody").is_some());
    assert!(split_frontmatter("just text").is_none());
}

#[test]
fn frontmatter_and_body_are_split_at_the_closing_fence() {
    let (fm, body) = split_frontmatter("---\nname: x\ndescription: y\n---\n\nDo the thing.\n").unwrap();
    assert_eq!(fm, "name: x\ndescription: y\n");
    assert_eq!(body, "\nDo the thing.\n");
    assert!(split_frontmatter("---\nname: x\n").is_none());
    assert!(split_frontmatter("---name: x\n---\n").is_none());
}

#[test]
fn recipes_live_under_the_ingests_folder() {
    assert_eq!(PathBuf::from(ingests_dir("/p")), Path::new("/p/.ken/ingests"));
    assert_eq!(PathBuf::from(recipe_path("/p", "weekly")), Path::new("/p/.ken/ingests/weekly.md"));
    let r = default_rules();
    assert_eq!((r.review_threshold_pct, r.stale_days), (20, 30));
}

fn sample() -> Recipe {
    Recipe {
        slug: "people".into(),
        name: "People".into(),
        description: "Directory of everyone".into(),
        sources: vec!["notes".into(), "specs".into()],
        output: "knowledge/People.md".into(),
        mode: Mode::Single,
        refresh: Refresh::OnChange,
        rules: None,
        instruction: "Extract every person mentioned across the sources.".into(),
    }
}

#[test]
fn validation_rejects_bad_recipes() {
    let mut r = sample();
    r.output = "/etc/passwd".into();
    assert!(validate(&r).is_err());
    r.output = "../outside.md".into();
    assert!(validate(&r).is_err());
    r.output = ".ken/hidden.md".into();
    assert!(validate(&r).is_err());
    r = sample();
    r.instruction = "  ".into();
    assert!(validate(&r).is_err());
    r = sample();
    r.mode = Mode::Single;
    r.output = "people/".into();
    assert!(validate(&r).is_err());
}

#[test]
fn validation_names_the_recipe_and_the_first_problem() {
    assert_eq!(validate(&sample()), Ok(()));
    let mut r = sample();
    r.slug = "a/b".into();
    assert_eq!(
        validate(&r),
        Err(Error::Other("recipe 'a/b': the file name must be a simple slug".into()))
    );
    r = sample();
    r.name = " ".into();
    r.output = "".into();
    assert_eq!(validate(&r), Err(Error::Other("recipe 'people': name can't be empty".into())));
    r = sample();
    r.output = "docs/../x.md".into();
    assert_eq!(
        validate(&r),
        Err(Error::Other("recipe 'people': output must be a folder or file inside the project".into()))
    );
    r.output = "docs/..x/y.md".into();
    assert_eq!(validate(&r), Ok(()));
    r = sample();
    r.instruction = String::new();
    assert_eq!(
        validate(&r),
        Err(Error::Other(
            "recipe 'people': the instruction can't be empty \u{2014} say what Ken should extract".into()
        ))
    );
    r = sample();
    r.mode = Mode::Collection;
    r.output = "people/".into();
    assert_eq!(validate(&r), Ok(()));
}

#[test]
fn rules_resolution_precedence() {
    let mut r = sample();
    // built-ins
    assert_eq!(resolve_rules(&r, &RulesOverride::default()), default_rules());
    // project defaults
    let project = RulesOverride { review_threshold_pct: Some(35), stale_days: Some(10) };
    assert_eq!(resolve_rules(&r, &project).review_threshold_pct, 35);
    assert_eq!(resolve_rules(&r, &project).stale_days, 10);
    // recipe override wins
    r.rules = Some(RulesOverride { review_threshold_pct: Some(50), stale_days: None });
    let resolved = resolve_rules(&r, &project);
    assert_eq!(resolved.review_threshold_pct, 50);
    assert_eq!(resolved.stale_days, 10);
}
