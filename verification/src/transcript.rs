//! Where the transcriber looks for its model.
use vstd::prelude::*;
use crate::paths::{join_path, path_join};

verus! {

/// The default transcription model's file name.
pub const MODEL_FILE: &'static str = "ggml-base.en.bin";

/// The folder, under the app's data directory, that holds transcription
/// models.
pub const WHISPER_DIR: &'static str = "whisper";

/// `<base>/whisper/ggml-base.en.bin`.
pub fn model_path(base_dir: &str) -> (r: String)
    ensures
        r@ == join_path(join_path(base_dir@, WHISPER_DIR@), MODEL_FILE@),
{
    let d = path_join(base_dir, WHISPER_DIR);
    path_join(d.as_str(), MODEL_FILE)
}

} // verus!
