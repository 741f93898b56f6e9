use ken_core::kenignore::{built_in_rule_sets, classify, malformed_lines, parse, Rule, Tier};


// ---- parse ----

#[test]
fn parse_bare_pattern_is_ignore_tier() {
    let rules = parse("build/\n");
    assert_eq!(rules, vec![Rule { tier: Tier::Ignore, pattern: "build/".into() }]);
}

#[test]
fn parse_tilde_prefix_is_search_only_tier() {
    let rules = parse("~.ken/tasks/\n");
    assert_eq!(
        rules,
        vec![Rule { tier: Tier::SearchOnly, pattern: ".ken/tasks/".into() }]
    );
}

#[test]
fn parse_bang_prefix_is_full_tier() {
    let rules = parse("!README.md\n");
    assert_eq!(rules, vec![Rule { tier: Tier::Full, pattern: "README.md".into() }]);
}

#[test]
fn parse_skips_comments_and_blank_lines() {
    let rules = parse("# a comment\n\nbuild/\n   \n# another\n");
    assert_eq!(rules, vec![Rule { tier: Tier::Ignore, pattern: "build/".into() }]);
}

#[test]
fn parse_escaped_tilde_is_literal_and_ignore_tier() {
    let rules = parse("\\~weird-dir/\n");
    assert_eq!(
        rules,
        vec![Rule { tier: Tier::Ignore, pattern: "~weird-dir/".into() }]
    );
}

#[test]
fn parse_escaped_bang_is_literal_and_ignore_tier() {
    let rules = parse("\\!important.txt\n");
    assert_eq!(
        rules,
        vec![Rule { tier: Tier::Ignore, pattern: "!important.txt".into() }]
    );
}

#[test]
fn parse_bare_prefix_with_no_pattern_is_malformed_and_skipped() {
    let rules = parse("~\n!\nbuild/\n");
    assert_eq!(rules, vec![Rule { tier: Tier::Ignore, pattern: "build/".into() }]);
}

#[test]
fn parse_preserves_declared_order() {
    let rules = parse("a\n~b\n!c\n");
    assert_eq!(
        rules,
        vec![
            Rule { tier: Tier::Ignore, pattern: "a".into() },
            Rule { tier: Tier::SearchOnly, pattern: "b".into() },
            Rule { tier: Tier::Full, pattern: "c".into() },
        ]
    );
}

// ---- classify ----

#[test]
fn classify_defaults_to_full_with_no_rules() {
    assert_eq!(classify("src/main.rs", false, &[]), Tier::Full);
}

#[test]
fn classify_no_kenignore_file_is_byte_identical_to_full_everywhere() {
    // The stated migration (design.md): no `.kenignore` at all means
    // every non-hard-ignored path classifies as Full.
    let rules = parse(""); // empty file
    assert_eq!(classify("anything/at/all.rs", false, &[&rules]), Tier::Full);
}

#[test]
fn classify_bare_pattern_ignores_matching_path() {
    let rules = parse("build/\n");
    assert_eq!(classify("build", true, &[&rules]), Tier::Ignore);
    assert_eq!(classify("build/output.txt", false, &[&rules]), Tier::Ignore);
}

#[test]
fn classify_tilde_pattern_is_search_only() {
    let rules = parse("~docs/drafts/\n");
    assert_eq!(
        classify("docs/drafts/note.md", false, &[&rules]),
        Tier::SearchOnly
    );
}

#[test]
fn classify_non_matching_path_defaults_full() {
    let rules = parse("build/\n");
    assert_eq!(classify("src/lib.rs", false, &[&rules]), Tier::Full);
}

#[test]
fn classify_last_match_wins_within_one_rule_set() {
    // A later broad ignore, then a narrower full-tier carve-out.
    let rules = parse("docs/\n!docs/README.md\n");
    assert_eq!(classify("docs/README.md", false, &[&rules]), Tier::Full);
    assert_eq!(classify("docs/other.md", false, &[&rules]), Tier::Ignore);
}

#[test]
fn classify_user_rules_override_builtin_rules_last_match_wins() {
    // Built-in prelude marks .ken/tasks/ SearchOnly; user file
    // overrides a specific file back to Full.
    let builtins = parse("~.ken/tasks/\n");
    let user = parse("!.ken/tasks/important.md\n");
    assert_eq!(
        classify(".ken/tasks/important.md", false, &[&builtins, &user]),
        Tier::Full
    );
    assert_eq!(
        classify(".ken/tasks/other.md", false, &[&builtins, &user]),
        Tier::SearchOnly
    );
}

#[test]
fn classify_hard_ignore_short_circuits_and_bang_cannot_resurrect() {
    let user = parse("!node_modules/keep-me.js\n");
    assert_eq!(
        classify("node_modules/keep-me.js", false, &[&user]),
        Tier::Ignore
    );
    assert_eq!(classify(".git/config", false, &[&user]), Tier::Ignore);
}

#[test]
fn classify_does_not_blanket_hard_ignore_dot_ken() {
    // `.ken/` DB internals (the real on-disk SQLite file etc.) never
    // reach `classify` at all in practice: scan.rs's walker filters the
    // whole `.ken` directory out unconditionally before rel paths are
    // ever computed (see `HARD_IGNORE_DIRS`'s doc comment). This module
    // must NOT re-implement that as a blanket `.ken` path-component
    // hard-ignore, because D2 step 2 names `~.ken/tasks/` as a built-in
    // tier rule that has to stay reachable and user-overridable — a
    // blanket `.ken` hard-ignore would swallow it and make `!` unable
    // to resurrect it, contradicting D2's own worked example.
    let builtins = parse("~.ken/tasks/\n");
    assert_eq!(
        classify(".ken/tasks/notes.md", false, &[&builtins]),
        Tier::SearchOnly
    );
}

#[test]
fn classify_root_anchored_pattern_only_matches_at_root() {
    let rules = parse("/only-root.txt\n");
    assert_eq!(classify("only-root.txt", false, &[&rules]), Tier::Ignore);
    assert_eq!(
        classify("nested/only-root.txt", false, &[&rules]),
        Tier::Full
    );
}

#[test]
fn classify_double_star_glob_matches_across_segments() {
    let rules = parse("~**/*.generated.ts\n");
    assert_eq!(
        classify("a/b/c/x.generated.ts", false, &[&rules]),
        Tier::SearchOnly
    );
}

#[test]
fn classify_escaped_literal_bang_filename_matches_as_ignore() {
    let rules = parse("\\!important.txt\n");
    assert_eq!(classify("!important.txt", false, &[&rules]), Tier::Ignore);
}

#[test]
fn classify_multiple_rule_sets_fold_in_given_order() {
    let a = parse("x\n");
    let b = parse("!x\n");
    // b comes after a: last-match-wins across sets, not just within.
    assert_eq!(classify("x", false, &[&a, &b]), Tier::Full);
    assert_eq!(classify("x", false, &[&b, &a]), Tier::Ignore);
}

#[test]
fn built_in_rule_sets_is_currently_an_empty_placeholder() {
    // ken-memory and ken-tasks (design.md D2/task 1.3) don't exist in
    // this codebase yet, so there are no built-in rules to contribute.
    // This test pins that honest-placeholder behavior so a future
    // implementation change is a deliberate edit, not a silent drift.
    assert!(built_in_rule_sets().is_empty());
}

#[test]
fn malformed_lines_name_the_bare_prefixes() {
    assert_eq!(malformed_lines("~\n!\nbuild/\n"), vec![1, 2]);
    assert!(malformed_lines("a\n# c\n").is_empty());
}

#[test]
fn a_later_rule_set_overrides_an_earlier_one_for_any_path() {
    let a = parse("*.md\n");
    let b = parse("~docs/\n");
    assert_eq!(classify("docs/x.md", false, &[&a, &b]), Tier::SearchOnly);
    assert_eq!(classify("docs/x.md", false, &[&b, &a]), Tier::Ignore);
}

#[test]
fn malformed_lines_are_exactly_the_dropped_rule_lines() {
    let text = "# note\n\n~\n\\~tilde\n!  \nkeep/\n!\n";
    assert_eq!(malformed_lines(text), vec![3, 5, 7]);
    // Those lines, and only those, give no rule although not blank or comments.
    assert_eq!(parse(text).len(), 2);
}

#[test]
fn a_blank_rule_never_matches_even_a_rooted_path() {
    let blank = [Rule { tier: Tier::Ignore, pattern: "   ".to_string() }];
    assert_eq!(classify(".//x", false, &[&blank]), Tier::Full);
    assert_eq!(classify("x", false, &[&blank]), Tier::Full);
}
