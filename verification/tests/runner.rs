use ken_core::runner::{
    output_tail, session_folder, strip_ansi, Backlog, RunnerConfig, RunnerMode, BACKLOG_CAP, TAIL_LINES,
};

#[test]
fn escape_sequences_are_removed_and_text_kept() {
    assert_eq!(strip_ansi("\u{1b}[1;32mgreen\u{1b}[0m plain"), "green plain");
    // A lone ESC goes, the next character stays.
    assert_eq!(strip_ansi("a\u{1b}b"), "ab");
    // An unterminated sequence runs to the end.
    assert_eq!(strip_ansi("x\u{1b}[12;"), "x");
    assert_eq!(strip_ansi(""), "");
}

#[test]
fn the_tail_is_the_last_lines_cleaned() {
    let text: String = (0..20).map(|i| format!("\u{1b}[2Kline {i}\n")).collect();
    let tail = output_tail(&text);
    let lines: Vec<&str> = tail.lines().collect();
    assert_eq!(lines.len(), TAIL_LINES);
    assert_eq!(lines[0], "line 5");
    assert_eq!(lines[TAIL_LINES - 1], "line 19");
    assert_eq!(output_tail("one\ntwo"), "one\ntwo");
    let cfg = RunnerConfig { binary: "/usr/local/bin/agent".into(), mode: RunnerMode::Headless, timeout_secs: 600 };
    assert_eq!(cfg.mode, RunnerMode::Headless);
}

#[test]
fn the_backlog_keeps_the_newest_bytes_up_to_the_cap() {
    let mut b = Backlog::new();
    assert!(b.is_empty());
    b.push(b"early output ");
    assert_eq!(b.bytes(), b"early output ".to_vec());
    let big = vec![7u8; BACKLOG_CAP];
    b.push(&big);
    assert_eq!(b.bytes().len(), BACKLOG_CAP);
    assert!(b.bytes().iter().all(|&x| x == 7));
    b.push(b"tail");
    let kept = b.bytes();
    assert_eq!(kept.len(), BACKLOG_CAP);
    assert_eq!(&kept[BACKLOG_CAP - 4..], b"tail");
    assert_eq!(kept[0], 7);
}

#[test]
fn session_folders_replace_every_separator() {
    assert_eq!(session_folder("/Users/ana/notes"), "-Users-ana-notes");
    assert_eq!(session_folder("C:\\work\\ken"), "C:-work-ken");
    assert_eq!(session_folder(""), "");
}
