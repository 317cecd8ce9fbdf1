//! Resume screening library: text utilities, privacy masking of resume text,
//! keyword scoring of resumes against job descriptions, resume normalization
//! and the decision logic around model calls and storage.

pub mod compat_reply;
pub mod extract;
pub mod jd;
pub mod json_read;
pub mod json_resume;
pub mod library;
pub mod llm;
pub mod mask_laws;
pub mod model_reply;
pub mod numbers;
pub mod preview;
pub mod privacy_mask;
pub mod progress;
pub mod reindex;
pub mod resume_reply;
pub mod render_lines;
pub mod repair;
pub mod schema;
pub mod screening;
pub mod settings;
pub mod search;
pub mod strset;
pub mod surnames;
pub mod text;
pub mod validate;
