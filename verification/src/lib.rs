//! Indexing and ranking engine for a local quick-launcher.
//!
//! The engine keeps an in-memory index of applications and user files and
//! answers fuzzy-ranked search queries over it.  The host shell owns the
//! filesystem traversal and the UI; this crate owns the data model, the
//! classification rules, the scoring rules and the ranking.

pub mod entry;
pub mod index;
pub mod rank;
pub mod score;
pub mod text;

pub use entry::Category;
pub use entry::SearchResult;
pub use entry::SourceRoot;
pub use entry::get_file_kind;
pub use entry::should_index_file;
pub use index::Index;
pub use index::IndexInfo;
pub use index::RawFile;
pub use index::build_entries;
pub use index::get_index_info;
pub use rank::debug_search;
pub use rank::search_apps;
