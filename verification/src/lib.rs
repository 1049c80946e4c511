//! Discovery and budget-constrained loading of steering documents.
//!
//! Steering documents are small Markdown files that supply persistent
//! guidance to a consumer. They live in two fixed directories: a global one
//! under the user's codex home, and a project one under the repository root.
//! This crate holds the deterministic core: candidate filtering and ordering,
//! repository-root selection, and the byte-budgeted, UTF-8-safe concatenation
//! of file contents. All filesystem access stays outside; callers hand in
//! plain directory listings and file bytes.

pub mod discovery;
pub mod encoding;
pub mod laws;
pub mod loader;
pub mod text;
pub mod types;

pub use discovery::discover_steering_files;
pub use discovery::resolve_repo_root;
pub use encoding::Utf8Check;
pub use encoding::check_utf8;
pub use loader::format_omission_note;
pub use loader::load_steering_docs;
pub use types::DirEntry;
pub use types::DirListing;
pub use types::DirState;
pub use types::EntryKind;
pub use types::FileRead;
pub use types::OmissionReason;
pub use types::SteeringDiscovery;
pub use types::SteeringFile;
pub use types::SteeringFileOutcome;
pub use types::SteeringFileStatus;
pub use types::SteeringLoadResult;
pub use types::SteeringScope;
