//! Counts blank, comment and code lines of source text, one language at a
//! time, and gathers the per-file results per language.

pub mod counter;
pub mod language;
pub mod language_type;
pub mod languages;
pub mod matcher;
pub mod multi_line;
pub mod sort;
pub mod stats;
pub mod syntax;

pub use language::Language;
pub use language_type::LanguageType;
pub use languages::Languages;
pub use matcher::Matcher;
pub use sort::Sort;
pub use stats::Stats;
