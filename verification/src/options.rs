//! Configuration for a parse: an immutable snapshot consumed by every
//! component, never mutated during a parse.

use vstd::prelude::*;

verus! {

/// The value of an optional setting, or its default.
pub open spec fn opt_or<T>(o: Option<T>, d: T) -> T {
    match o {
        Some(v) => v,
        None => d,
    }
}

/// Configuration options for a parse.
#[derive(Debug)]
pub struct ReadabilityOptions {
    /// Enable debug bookkeeping (default: false)
    pub debug: bool,
    /// Maximum number of elements to parse; 0 means no limit (default: 0)
    pub max_elems_to_parse: usize,
    /// Number of top candidates kept while analyzing content (default: 5)
    pub nb_top_candidates: usize,
    /// Minimum number of characters required for article content
    /// (default: 500)
    pub char_threshold: usize,
    /// Class names preserved during class stripping (default: ["page"])
    pub classes_to_preserve: Vec<String>,
    /// Keep all classes (default: false)
    pub keep_classes: bool,
    /// Disable structured-data metadata extraction (default: false)
    pub disable_json_ld: bool,
    /// Substring patterns of video hosts whose embedded frames are kept
    /// during cleaning (default: common video platforms)
    pub allowed_video_regex: Vec<String>,
    /// Additive adjustment to link-density penalties, in thousandths
    /// (default: 0)
    pub link_density_modifier: i64,
}

/// The default configuration.
pub open spec fn is_default_options(o: ReadabilityOptions) -> bool {
    &&& o.debug == false
    &&& o.max_elems_to_parse == 0usize
    &&& o.nb_top_candidates == 5usize
    &&& o.char_threshold == 500usize
    &&& o.classes_to_preserve@.len() == 1
    &&& o.classes_to_preserve@[0]@ == "page"@
    &&& o.keep_classes == false
    &&& o.disable_json_ld == false
    &&& o.allowed_video_regex@.len() == 4
    &&& o.allowed_video_regex@[0]@ == "youtube"@
    &&& o.allowed_video_regex@[1]@ == "youtu.be"@
    &&& o.allowed_video_regex@[2]@ == "vimeo"@
    &&& o.allowed_video_regex@[3]@ == "dailymotion"@
    &&& o.link_density_modifier == 0i64
}

impl Default for ReadabilityOptions {
    fn default() -> (r: ReadabilityOptions)
        ensures
            is_default_options(r),
    {
        let mut classes: Vec<String> = Vec::new();
        classes.push(crate::text::chars_to_string(&crate::text::str_to_chars("page")));
        let mut hosts: Vec<String> = Vec::new();
        hosts.push(crate::text::chars_to_string(&crate::text::str_to_chars("youtube")));
        hosts.push(crate::text::chars_to_string(&crate::text::str_to_chars("youtu.be")));
        hosts.push(crate::text::chars_to_string(&crate::text::str_to_chars("vimeo")));
        hosts.push(crate::text::chars_to_string(&crate::text::str_to_chars("dailymotion")));
        ReadabilityOptions {
            debug: false,
            max_elems_to_parse: 0,
            nb_top_candidates: 5,
            char_threshold: 500,
            classes_to_preserve: classes,
            keep_classes: false,
            disable_json_ld: false,
            allowed_video_regex: hosts,
            link_density_modifier: 0,
        }
    }
}

impl ReadabilityOptions {
    /// A builder over the defaults.
    pub fn builder() -> (r: ReadabilityOptionsBuilder)
        ensures
            r.debug is None,
            r.max_elems_to_parse is None,
            r.nb_top_candidates is None,
            r.char_threshold is None,
            r.classes_to_preserve is None,
            r.keep_classes is None,
            r.disable_json_ld is None,
            r.allowed_video_regex is None,
            r.link_density_modifier is None,
    {
        ReadabilityOptionsBuilder {
            debug: None,
            max_elems_to_parse: None,
            nb_top_candidates: None,
            char_threshold: None,
            classes_to_preserve: None,
            keep_classes: None,
            disable_json_ld: None,
            allowed_video_regex: None,
            link_density_modifier: None,
        }
    }
}

/// Builder for `ReadabilityOptions`: unset fields take the defaults.
#[derive(Debug)]
pub struct ReadabilityOptionsBuilder {
    pub debug: Option<bool>,
    pub max_elems_to_parse: Option<usize>,
    pub nb_top_candidates: Option<usize>,
    pub char_threshold: Option<usize>,
    pub classes_to_preserve: Option<Vec<String>>,
    pub keep_classes: Option<bool>,
    pub disable_json_ld: Option<bool>,
    pub allowed_video_regex: Option<Vec<String>>,
    pub link_density_modifier: Option<i64>,
}

impl ReadabilityOptionsBuilder {
    /// Enable or disable debug bookkeeping.
    pub fn debug(self, debug: bool) -> (r: ReadabilityOptionsBuilder)
        ensures
            r == (ReadabilityOptionsBuilder { debug: Some(debug), ..self }),
    {
        ReadabilityOptionsBuilder { debug: Some(debug), ..self }
    }

    /// Set the maximum number of elements to parse.
    pub fn max_elems_to_parse(self, max: usize) -> (r: ReadabilityOptionsBuilder)
        ensures
            r == (ReadabilityOptionsBuilder { max_elems_to_parse: Some(max), ..self }),
    {
        ReadabilityOptionsBuilder { max_elems_to_parse: Some(max), ..self }
    }

    /// Set the number of top candidates to consider.
    pub fn nb_top_candidates(self, nb: usize) -> (r: ReadabilityOptionsBuilder)
        ensures
            r == (ReadabilityOptionsBuilder { nb_top_candidates: Some(nb), ..self }),
    {
        ReadabilityOptionsBuilder { nb_top_candidates: Some(nb), ..self }
    }

    /// Set the character threshold.
    pub fn char_threshold(self, threshold: usize) -> (r: ReadabilityOptionsBuilder)
        ensures
            r == (ReadabilityOptionsBuilder { char_threshold: Some(threshold), ..self }),
    {
        ReadabilityOptionsBuilder { char_threshold: Some(threshold), ..self }
    }

    /// Set the class names to preserve.
    pub fn classes_to_preserve(self, classes: Vec<String>) -> (r: ReadabilityOptionsBuilder)
        ensures
            r == (ReadabilityOptionsBuilder { classes_to_preserve: Some(classes), ..self }),
    {
        ReadabilityOptionsBuilder { classes_to_preserve: Some(classes), ..self }
    }

    /// Keep all classes.
    pub fn keep_classes(self, keep: bool) -> (r: ReadabilityOptionsBuilder)
        ensures
            r == (ReadabilityOptionsBuilder { keep_classes: Some(keep), ..self }),
    {
        ReadabilityOptionsBuilder { keep_classes: Some(keep), ..self }
    }

    /// Disable structured-data extraction.
    pub fn disable_json_ld(self, disable: bool) -> (r: ReadabilityOptionsBuilder)
        ensures
            r == (ReadabilityOptionsBuilder { disable_json_ld: Some(disable), ..self }),
    {
        ReadabilityOptionsBuilder { disable_json_ld: Some(disable), ..self }
    }

    /// Set the allowed-video host patterns.
    pub fn allowed_video_regex(self, patterns: Vec<String>) -> (r: ReadabilityOptionsBuilder)
        ensures
            r == (ReadabilityOptionsBuilder { allowed_video_regex: Some(patterns), ..self }),
    {
        ReadabilityOptionsBuilder { allowed_video_regex: Some(patterns), ..self }
    }

    /// Set the link-density modifier, in thousandths.
    pub fn link_density_modifier(self, modifier: i64) -> (r: ReadabilityOptionsBuilder)
        ensures
            r == (ReadabilityOptionsBuilder { link_density_modifier: Some(modifier), ..self }),
    {
        ReadabilityOptionsBuilder { link_density_modifier: Some(modifier), ..self }
    }

    /// Build the options: every unset field takes its default.
    pub fn build(self) -> (r: ReadabilityOptions)
        ensures
            r.debug == opt_or(self.debug, false),
            r.max_elems_to_parse == opt_or(self.max_elems_to_parse, 0usize),
            r.nb_top_candidates == opt_or(self.nb_top_candidates, 5usize),
            r.char_threshold == opt_or(self.char_threshold, 500usize),
            self.classes_to_preserve matches Some(c) ==> r.classes_to_preserve == c,
            self.classes_to_preserve is None ==> r.classes_to_preserve@.len() == 1
                && r.classes_to_preserve@[0]@ == "page"@,
            r.keep_classes == opt_or(self.keep_classes, false),
            r.disable_json_ld == opt_or(self.disable_json_ld, false),
            self.allowed_video_regex matches Some(p) ==> r.allowed_video_regex == p,
            self.allowed_video_regex is None ==> r.allowed_video_regex@.len() == 4
                && r.allowed_video_regex@[0]@ == "youtube"@ && r.allowed_video_regex@[1]@
                == "youtu.be"@ && r.allowed_video_regex@[2]@ == "vimeo"@
                && r.allowed_video_regex@[3]@ == "dailymotion"@,
            r.link_density_modifier == opt_or(self.link_density_modifier, 0i64),
    {
        let defaults = ReadabilityOptions::default();
        ReadabilityOptions {
            debug: match self.debug {
                Some(v) => v,
                None => defaults.debug,
            },
            max_elems_to_parse: match self.max_elems_to_parse {
                Some(v) => v,
                None => defaults.max_elems_to_parse,
            },
            nb_top_candidates: match self.nb_top_candidates {
                Some(v) => v,
                None => defaults.nb_top_candidates,
            },
            char_threshold: match self.char_threshold {
                Some(v) => v,
                None => defaults.char_threshold,
            },
            classes_to_preserve: match self.classes_to_preserve {
                Some(v) => v,
                None => defaults.classes_to_preserve,
            },
            keep_classes: match self.keep_classes {
                Some(v) => v,
                None => defaults.keep_classes,
            },
            disable_json_ld: match self.disable_json_ld {
                Some(v) => v,
                None => defaults.disable_json_ld,
            },
            allowed_video_regex: match self.allowed_video_regex {
                Some(v) => v,
                None => defaults.allowed_video_regex,
            },
            link_density_modifier: match self.link_density_modifier {
                Some(v) => v,
                None => defaults.link_density_modifier,
            },
        }
    }
}

} // verus!
