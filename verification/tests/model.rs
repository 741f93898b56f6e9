use ken_core::model::{
    catalog, category_specs, find_spec, progress_percent, recommended, resolve_url, selected,
    selected_model_path, set_selected, target_path, verify_download, ModelCategory, ModelSelection,
    ModelSpec, ModelTier, ProgressThrottle, RECOMMENDED_FILE,
};
use ken_core::transcript;

fn spec_for(file: &str, bytes: u64) -> ModelSpec {
    ModelSpec {
        id: file.into(),
        name: "test model".into(),
        file: file.into(),
        url: resolve_url(file),
        expected_bytes: bytes,
        recommended: file == RECOMMENDED_FILE,
    }
}

#[test]
fn recommended_default_is_the_base_english_model() {
    let r = recommended();
    assert_eq!(r.file, "ggml-base.en.bin");
    assert!(r.recommended);
    assert!(r.url.contains("ggerganov/whisper.cpp/resolve/main/ggml-base.en.bin"));
    assert_eq!(r.name, "Whisper Base (English)");
}

#[test]
fn catalog_has_the_transcription_pair() {
    let cat = catalog();
    let trans: Vec<_> = cat.iter().filter(|e| e.category == ModelCategory::Transcription).collect();
    assert_eq!(trans.len(), 2, "one recommended + one advanced transcription model");
    let rec = trans.iter().find(|e| e.tier == ModelTier::Recommended).unwrap();
    assert_eq!(rec.spec.file, "ggml-base.en.bin");
    assert_eq!(rec.spec.name, "Whisper Base (English)");
    assert_eq!(rec.spec.expected_bytes, 147_951_465);
    assert!(rec.spec.recommended);
    let adv = trans.iter().find(|e| e.tier == ModelTier::Advanced).unwrap();
    assert_eq!(adv.spec.file, "ggml-large-v3-turbo.bin");
    assert_eq!(adv.spec.name, "Whisper Large v3 Turbo");
    assert!(!adv.spec.recommended);
    assert_eq!(rec.blurb, "fast, accurate for meetings");
    assert_eq!(adv.blurb, "best accuracy, understands more languages, slower");
}

#[test]
fn language_catalog_has_qwen3_4b_and_8b() {
    let lang: Vec<_> = catalog().into_iter().filter(|e| e.category == ModelCategory::Language).collect();
    assert_eq!(lang.len(), 2);
    let rec = lang.iter().find(|e| e.tier == ModelTier::Recommended).unwrap();
    assert_eq!(rec.spec.file, "Qwen3-4B-Instruct-2507-Q4_K_M.gguf");
    assert_eq!(rec.spec.expected_bytes, 2_497_281_120);
    assert!(rec.spec.url.starts_with("https://huggingface.co/unsloth/"));
    let adv = lang.iter().find(|e| e.tier == ModelTier::Advanced).unwrap();
    assert_eq!(adv.spec.file, "Qwen3-8B-Q4_K_M.gguf");
    assert_eq!(adv.spec.expected_bytes, 5_027_783_488);
    // Nothing saved: the category's recommended model; nothing installed: no path.
    let none = ModelSelection::default();
    assert_eq!(selected(&none, ModelCategory::Language).file, rec.spec.file);
    assert_eq!(selected_model_path("/data/ken", &none, ModelCategory::Language, &[]), None);
}

#[test]
fn recommended_still_resolves_to_base_english() {
    let r = recommended();
    assert_eq!(r.file, "ggml-base.en.bin");
    assert!(r.recommended);
    assert!(r.url.contains("ggerganov/whisper.cpp/resolve/main/ggml-base.en.bin"));
}

#[test]
fn find_spec_locates_catalog_models_and_rejects_unknown() {
    assert_eq!(find_spec("ggml-large-v3-turbo.bin").unwrap().name, "Whisper Large v3 Turbo");
    assert!(find_spec("ggml-nonsense.bin").is_none());
}

#[test]
fn selected_defaults_to_recommended_then_honours_a_valid_choice() {
    let mut sel = ModelSelection::default();
    assert_eq!(selected(&sel, ModelCategory::Transcription).file, "ggml-base.en.bin");
    set_selected(&mut sel, ModelCategory::Transcription, "ggml-large-v3-turbo.bin");
    assert_eq!(selected(&sel, ModelCategory::Transcription).file, "ggml-large-v3-turbo.bin");
    set_selected(&mut sel, ModelCategory::Transcription, "ggml-bogus.bin");
    assert_eq!(selected(&sel, ModelCategory::Transcription).file, "ggml-base.en.bin");
    assert_eq!(sel.language, None);
}

#[test]
fn selected_model_path_prefers_selection_then_any_installed() {
    let base = "/data/ken";
    let mut sel = ModelSelection::default();
    assert!(selected_model_path(base, &sel, ModelCategory::Transcription, &[]).is_none());
    let adv = find_spec("ggml-large-v3-turbo.bin").unwrap();
    let installed = vec![adv.id.clone()];
    let p = target_path(base, &adv);
    assert_eq!(selected_model_path(base, &sel, ModelCategory::Transcription, &installed), Some(p.clone()));
    set_selected(&mut sel, ModelCategory::Transcription, "ggml-large-v3-turbo.bin");
    assert_eq!(selected_model_path(base, &sel, ModelCategory::Transcription, &installed), Some(p));
}

#[test]
fn category_specs_keep_catalog_order() {
    let t = category_specs(ModelCategory::Transcription);
    assert_eq!(t.iter().map(|s| s.file.as_str()).collect::<Vec<_>>(), vec!["ggml-base.en.bin", "ggml-large-v3-turbo.bin"]);
}

#[test]
fn target_path_matches_transcript_resolution() {
    let base = "/data/ken";
    assert_eq!(target_path(base, &recommended()), transcript::model_path(base));
}

#[test]
fn progress_percent_clamps_and_handles_unknown_total() {
    assert_eq!(progress_percent(0, 0), 0);
    assert_eq!(progress_percent(50, 200), 25);
    assert_eq!(progress_percent(200, 200), 100);
    assert_eq!(progress_percent(300, 200), 100);
    assert_eq!(progress_percent(u64::MAX - 1, u64::MAX), 99);
}

#[test]
fn throttle_emits_on_first_then_step_or_interval() {
    let mut t = ProgressThrottle::new();
    assert!(t.should_emit(0, 100, 0));
    assert!(!t.should_emit(0, 100, 10));
    assert!(t.should_emit(1, 100, 20));
    assert!(!t.should_emit(1, 100, 30));
    assert!(t.should_emit(1, 100, 300));
}

#[test]
fn verify_accepts_a_complete_download() {
    let spec = spec_for(RECOMMENDED_FILE, 1000);
    assert!(verify_download(1000, Some(1000), &spec).is_ok());
}

#[test]
fn verify_rejects_a_truncated_download() {
    let spec = spec_for(RECOMMENDED_FILE, 1000);
    assert!(verify_download(600, Some(1000), &spec).is_err());
    assert_eq!(
        verify_download(600, Some(1000), &spec).unwrap_err().message(),
        "the download was incomplete (600 of 1000 bytes) — check your connection and try again"
    );
}

#[test]
fn verify_falls_back_to_expected_size_without_content_length() {
    let spec = spec_for(RECOMMENDED_FILE, 1000);
    assert!(verify_download(999, None, &spec).is_err());
    assert!(verify_download(1000, None, &spec).is_ok());
}
