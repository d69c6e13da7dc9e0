//! Reader-mode article extraction: locates the main article container in
//! arbitrary markup, cleans it, and returns a structured record with the
//! article body, its plain-text rendering, and metadata.

mod article;
pub mod clean;
pub mod dom;
pub mod extract;
pub mod links;
pub mod meta;
pub mod options;
pub mod readability;
pub mod parse;
pub mod readerable;
pub mod text;

pub use article::Article;
pub use clean::prep_article;
pub use clean::remove_empty_paragraphs;
pub use clean::remove_navigation_elements;
pub use clean::remove_share_elements;
pub use clean::remove_unwanted_elements;
pub use options::ReadabilityOptions;
pub use options::ReadabilityOptionsBuilder;
pub use readability::Readability;
pub use readability::ReadabilityError;
pub use readerable::ReaderableOptions;
pub use readerable::is_probably_readerable;
