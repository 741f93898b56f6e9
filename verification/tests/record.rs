use ken_core::record::{
    build_document, dur_hms, merge_transcript, metadata_header, recording_stem, Cue, LabeledChannel,
    Phase, RecorderState, AUDIO_ONLY_NOTE,
};
use ken_core::record::unique_name;

#[test]
fn elapsed_excludes_paused_time() {
    let mut r = RecorderState::new();
    assert_eq!(r.phase, Phase::Idle);
    r.start(1_000, true, false);
    assert_eq!(r.phase, Phase::Recording);
    assert_eq!(r.elapsed_ms(3_000), 2_000);
    r.pause(3_000);
    assert_eq!(r.phase, Phase::Paused);
    assert_eq!(r.elapsed_ms(10_000), 2_000);
    r.resume(10_000);
    assert_eq!(r.elapsed_ms(11_000), 3_000);
    r.stop(12_000);
    assert_eq!(r.phase, Phase::Stopped);
    assert_eq!(r.elapsed_ms(99_999), 4_000);
}

#[test]
fn is_capturing_only_while_recording() {
    let mut r = RecorderState::new();
    assert!(!r.is_capturing());
    r.start(0, true, true);
    assert!(r.is_capturing());
    r.pause(500);
    assert!(!r.is_capturing());
}

#[test]
fn pausing_twice_or_resuming_a_running_recorder_changes_nothing() {
    let mut r = RecorderState::new();
    r.start(0, true, false);
    r.resume(50);
    assert_eq!(r.elapsed_ms(100), 100);
    r.pause(100);
    r.pause(400);
    assert_eq!(r.elapsed_ms(900), 100);
}

fn cue(start_ms: u64, end_ms: u64, text: &str) -> Cue {
    Cue { start_ms, end_ms, text: text.into() }
}

#[test]
fn merge_interleaves_two_channels_by_start_and_labels() {
    let me = vec![cue(0, 2000, "hi there"), cue(6000, 8000, "sounds good")];
    let them = vec![cue(2500, 4000, "thanks for joining")];
    let md = merge_transcript(&[
        LabeledChannel { label: Some("Me"), cues: &me },
        LabeledChannel { label: Some("Them"), cues: &them },
    ]);
    let expected = "\
**Me** [0:00] hi there

**Them** [0:02] thanks for joining

**Me** [0:06] sounds good
";
    assert_eq!(md, expected);
}

#[test]
fn merge_breaks_ties_me_before_them() {
    let me = vec![cue(1000, 2000, "first")];
    let them = vec![cue(1000, 2000, "second")];
    let md = merge_transcript(&[
        LabeledChannel { label: Some("Me"), cues: &me },
        LabeledChannel { label: Some("Them"), cues: &them },
    ]);
    assert_eq!(md, "**Me** [0:01] first\n\n**Them** [0:01] second\n");
}

#[test]
fn merge_coalesces_consecutive_same_speaker_turns() {
    let me = vec![cue(0, 1000, "one"), cue(1000, 2000, "two"), cue(2000, 3000, "three")];
    let them = vec![cue(1000, 2000, "interject")];
    let md = merge_transcript(&[
        LabeledChannel { label: Some("Me"), cues: &me },
        LabeledChannel { label: Some("Them"), cues: &them },
    ]);
    let expected = "\
**Me** [0:00] one two

**Them** [0:01] interject

**Me** [0:02] three
";
    assert_eq!(md, expected);
}

#[test]
fn merge_single_channel_has_no_labels_but_keeps_timestamps() {
    let only = vec![cue(0, 2000, "solo line"), cue(4000, 5000, "next line")];
    let md = merge_transcript(&[LabeledChannel { label: None, cues: &only }]);
    assert_eq!(md, "[0:00] solo line\n\n[0:04] next line\n");
}

#[test]
fn merge_skips_empty_channel_and_blank_cues() {
    let me = vec![cue(0, 1000, "  hello  "), cue(1000, 2000, "   ")];
    let them: Vec<Cue> = vec![];
    let md = merge_transcript(&[
        LabeledChannel { label: Some("Me"), cues: &me },
        LabeledChannel { label: Some("Them"), cues: &them },
    ]);
    assert_eq!(md, "**Me** [0:00] hello\n");
}

#[test]
fn merge_of_nothing_is_empty() {
    assert_eq!(merge_transcript(&[]), "");
    let empty: Vec<Cue> = vec![];
    assert_eq!(merge_transcript(&[LabeledChannel { label: Some("Me"), cues: &empty }]), "");
}

#[test]
fn merge_orders_out_of_order_cues_and_shows_hours() {
    let me = vec![cue(3_725_000, 3_726_000, "late"), cue(5_000, 6_000, "early")];
    let md = merge_transcript(&[LabeledChannel { label: Some("Me"), cues: &me }]);
    assert_eq!(md, "**Me** [0:05] early late\n");
    let solo = vec![cue(3_725_000, 3_726_000, "late"), cue(5_000, 6_000, "early")];
    let md = merge_transcript(&[LabeledChannel { label: None, cues: &solo }]);
    assert_eq!(md, "[0:05] early\n\n[1:02:05] late\n");
}

#[test]
fn build_document_joins_header_and_body() {
    let header = metadata_header(2026, 7, 14, 14, 2, 5, true, false);
    let doc = build_document(&header, "[0:00] hello\n");
    assert!(doc.contains("# Recording — 2026-07-14 14.02"));
    assert!(doc.trim_end().ends_with("[0:00] hello"));
    let audio = build_document(&header, AUDIO_ONLY_NOTE);
    assert!(audio.contains("audio was saved without a transcript"));
}

#[test]
fn stem_and_duration_formatting() {
    assert_eq!(recording_stem(2026, 7, 14, 14, 2), "2026-07-14 14.02 Recording");
    assert_eq!(dur_hms(9), "0:09");
    assert_eq!(dur_hms(754), "12:34");
    assert_eq!(dur_hms(3_661), "1:01:01");
}

#[test]
fn metadata_header_lists_both_sources() {
    let h = metadata_header(2026, 7, 14, 14, 2, 754, true, true);
    assert!(h.starts_with("# Recording — 2026-07-14 14.02\n"));
    assert!(h.contains("- Date: 2026-07-14 14:02"));
    assert!(h.contains("- Duration: 12:34"));
    assert!(h.contains("- Sources: Me (microphone), Them (system audio)"));
    assert!(h.trim_end().ends_with("---"));
    let mic = metadata_header(2026, 7, 14, 9, 5, 30, true, false);
    assert!(mic.contains("- Sources: Me (microphone)"));
    assert!(!mic.contains("Them"));
}

#[test]
fn unique_name_avoids_collisions() {
    let stem = "2026-07-14 14.02 Recording";
    let mut taken: Vec<String> = Vec::new();
    assert_eq!(unique_name(&taken, stem, "md"), format!("{stem}.md"));
    taken.push(format!("{stem}.md"));
    assert_eq!(unique_name(&taken, stem, "md"), format!("{stem} 2.md"));
}

#[test]
fn unique_names_skip_every_taken_number() {
    let taken: Vec<String> = vec!["a 3.wav".into(), "a.wav".into(), "a 2.wav".into(), "b.wav".into()];
    assert_eq!(unique_name(&taken, "a", "wav"), "a 4.wav");
    assert_eq!(unique_name(&taken, "b", "md"), "b.md");
}
