//! The output record of a successful parse.

use vstd::prelude::*;

verus! {

/// Character count of an optional text field: `None` counts as zero.
pub open spec fn opt_text_len(t: Option<String>) -> nat {
    match t {
        Some(s) => s@.len(),
        None => 0,
    }
}

/// A successfully parsed article.
///
/// Created once, at the end of a successful parse, and immutable thereafter.
#[derive(Debug, Clone, PartialEq)]
pub struct Article {
    /// Article title
    pub title: Option<String>,
    /// Markup of the processed article body
    pub content: Option<String>,
    /// Plain text content with all markup removed
    pub text_content: Option<String>,
    /// Length of the article in characters
    pub length: usize,
    /// Article description or short excerpt from the content
    pub excerpt: Option<String>,
    /// Author metadata
    pub byline: Option<String>,
    /// Content direction (ltr, rtl, auto)
    pub dir: Option<String>,
    /// Name of the site
    pub site_name: Option<String>,
    /// Content language
    pub lang: Option<String>,
    /// Published time
    pub published_time: Option<String>,
    /// Raw markup of the chosen container before any post-processing
    pub raw_content: Option<String>,
}

impl Article {
    /// `length` is exactly the character count of `text_content`.
    pub open spec fn wf(self) -> bool {
        self.length == opt_text_len(self.text_content)
    }

    /// Every metadata field is absent.
    pub open spec fn is_empty_record(self) -> bool {
        &&& self.title is None
        &&& self.content is None
        &&& self.text_content is None
        &&& self.length == 0
        &&& self.excerpt is None
        &&& self.byline is None
        &&& self.dir is None
        &&& self.site_name is None
        &&& self.lang is None
        &&& self.published_time is None
        &&& self.raw_content is None
    }

    /// An empty record, to be filled by the parse.
    pub fn new() -> (r: Article)
        ensures
            r.is_empty_record(),
            r.wf(),
    {
        Article {
            title: None,
            content: None,
            text_content: None,
            length: 0,
            excerpt: None,
            byline: None,
            dir: None,
            site_name: None,
            lang: None,
            published_time: None,
            raw_content: None,
        }
    }
}

impl Default for Article {
    fn default() -> (r: Article)
        ensures
            r.is_empty_record(),
            r.wf(),
    {
        Article::new()
    }
}

} // verus!
