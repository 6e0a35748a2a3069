//! Core logic of a chunked-upload service: filename and path validation,
//! deterministic part-file naming, the merge engine that assembles chunks
//! into final artifacts, per-key lock bookkeeping, upload-progress tracking,
//! resume detection, and the janitor's reclamation rules.

pub mod assoc;
pub mod config;
pub mod external;
pub mod filetype;
pub mod janitor;
pub mod locks;
pub mod models;
pub mod names;
pub mod paths;
pub mod progress;
pub mod resume;
pub mod store;
pub mod text;
pub mod upload;
pub mod validation;
