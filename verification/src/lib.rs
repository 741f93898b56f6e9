//! Ken's domain core: `.kenignore` tiers, the work pipeline's gates and
//! block model, the recorder's bookkeeping, the model catalog, and the
//! knowledge-model build policy.
use vstd::prelude::*;

pub mod text;
pub mod error;
pub mod json;
pub mod transcript;
pub mod paths;
pub mod kenignore;
pub mod pipeline;
pub mod record;
pub mod model;
pub mod knowledge_model;
pub mod project;
pub mod memory;
pub mod scan;
pub mod recipe;
pub mod profiler;
pub mod research;
pub mod search;
pub mod routing;
pub mod local_llm;
pub mod refresh;
pub mod runner;
pub mod dates;
pub mod profile_scan;
pub mod profile;
