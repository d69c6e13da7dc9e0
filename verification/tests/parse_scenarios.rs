//! End-to-end extraction scenarios and option handling.

use readabilityrs::{Article, Readability, ReadabilityError, ReadabilityOptions};

fn long_text(sentence: &str, min_len: usize) -> String {
    let mut s = String::new();
    while s.len() < min_len {
        s.push_str(sentence);
    }
    s
}

#[test]
fn test_single_article_extracted_on_first_attempt() {
    let p1 = long_text("The expedition charted a trench deeper than any measured before. ", 520);
    let p2 = long_text("Instruments recorded currents that reverse direction with the tide. ", 520);
    let html = format!(
        "<article><h1>Deep Sea Findings</h1><p>{}</p><p>{}</p></article>",
        p1, p2
    );

    let reader = Readability::new(&html, None, None).unwrap();
    let article = reader.parse().expect("article should be found");

    assert_eq!(article.title.as_deref(), Some("Deep Sea Findings"));
    let content = article.content.clone().unwrap();
    assert!(content.contains(&p1));
    assert!(content.contains(&p2));
    assert!(!content.contains("<h1"));
}

#[test]
fn test_length_matches_text_content() {
    let p1 = long_text("Counting characters is the whole point of this scenario. ", 520);
    let html = format!("<article><h1>Count</h1><p>{}</p></article>", p1);

    let reader = Readability::new(&html, None, None).unwrap();
    let article = reader.parse().expect("article should be found");

    let text = article.text_content.clone().unwrap();
    assert_eq!(article.length, text.chars().count());
    assert!(article.length > 0);
}

#[test]
fn test_tiny_document_yields_no_article() {
    let html = "<p>Fifty characters of text, but nothing more here.</p>";

    let reader = Readability::new(html, None, None).unwrap();
    assert!(reader.parse().is_none());
}

#[test]
fn test_sidebar_loses_to_content_block() {
    let ad = long_text("promotional chatter about a product nobody asked for today ", 200);
    let mut sidebar = String::new();
    for _ in 0..10 {
        sidebar.push_str(&format!("<p>{}</p>", &ad[..200]));
    }
    let story = long_text(
        "substantive reporting sentence with careful sourcing and detail, quoted at length ",
        600,
    );
    let html = format!(
        "<div><div class=\"ad-sidebar\">{}</div><div class=\"content-main\"><p>{}</p><p>{}</p><p>{}</p></div></div>",
        sidebar, story, story, story
    );

    let reader = Readability::new(&html, None, None).unwrap();
    let article = reader.parse().expect("article should be found");

    let content = article.content.clone().unwrap();
    assert!(content.contains("substantive reporting sentence"));
    assert!(!content.contains("promotional chatter"));
}

#[test]
fn test_resource_bound_rejects_large_documents() {
    let html = "<div><p>one</p><p>two</p><p>three</p></div>";

    let options = ReadabilityOptions::builder().max_elems_to_parse(2).build();
    let result = Readability::new(html, None, Some(options));
    assert!(matches!(result, Err(ReadabilityError::TooManyElements)));

    let roomy = ReadabilityOptions::builder().max_elems_to_parse(10).build();
    assert!(Readability::new(html, None, Some(roomy)).is_ok());
}

#[test]
fn test_unparseable_markup_is_rejected() {
    let html = "<div><p>an unterminated tag <a href=\"";
    let result = Readability::new(html, None, None);
    assert!(matches!(result, Err(ReadabilityError::UnparseableInput)));
    match result {
        Err(e) => assert_eq!(e.message(), "markup could not be tokenized"),
        Ok(_) => unreachable!(),
    }
}

#[test]
fn test_low_but_nonzero_content_is_accepted() {
    let body = long_text("A short note. ", 100);
    let html = format!("<html><body><div><p>{}</p></div></body></html>", body);

    let reader = Readability::new(&html, None, None).unwrap();
    let article = reader.parse().expect("low but nonzero content is accepted");
    assert!(article.length > 0);
    assert!(article.length < 500);
}

#[test]
fn test_no_title_leaves_headings_alone() {
    let p1 = long_text("Paragraphs here carry the content weight of the page. ", 520);
    let html = format!("<article><h2>Section marker</h2><p>{}</p><p>{}</p></article>", p1, p1);

    let reader = Readability::new(&html, None, None).unwrap();
    let article = reader.parse().expect("article should be found");

    // the only title source is an h1; with none, the title is absent and
    // the dedup removes nothing
    assert!(article.title.is_none());
    let content = article.content.clone().unwrap();
    assert!(content.contains("<h2>Section marker</h2>"));
}

#[test]
fn test_metadata_fields_from_meta_tags() {
    let p1 = long_text("Body text for the metadata scenario, long enough to extract. ", 520);
    let head = "<html lang=\"en\" dir=\"ltr\"><head><title>Page Title | Site</title><meta property=\"og:title\" content=\"Og Title\"><meta name=\"author\" content=\"A. Writer\"><meta name=\"description\" content=\"A short description.\"><meta property=\"og:site_name\" content=\"Example Site\"><meta property=\"article:published_time\" content=\"2024-01-02\"></head>";
    let html = format!("{}<body><article><p>{}</p></article></body></html>", head, p1);

    let reader = Readability::new(&html, None, None).unwrap();
    let article = reader.parse().expect("article should be found");

    assert_eq!(article.title.as_deref(), Some("Og Title"));
    assert_eq!(article.byline.as_deref(), Some("A. Writer"));
    assert_eq!(article.excerpt.as_deref(), Some("A short description."));
    assert_eq!(article.site_name.as_deref(), Some("Example Site"));
    assert_eq!(article.published_time.as_deref(), Some("2024-01-02"));
    assert_eq!(article.lang.as_deref(), Some("en"));
    assert_eq!(article.dir.as_deref(), Some("ltr"));
}

#[test]
fn test_class_attributes_are_stripped_unless_preserved() {
    let p1 = long_text("Class stripping is part of the cleaning pipeline in this library. ", 520);
    let html = format!(
        "<article><p class=\"page\">{}</p><p class=\"fancy\">{}</p></article>",
        p1, p1
    );

    let reader = Readability::new(&html, None, None).unwrap();
    let article = reader.parse().expect("article should be found");
    let content = article.content.clone().unwrap();
    assert!(content.contains("class=\"page\""));
    assert!(!content.contains("fancy"));

    let keep = ReadabilityOptions::builder().keep_classes(true).build();
    let reader2 = Readability::new(&html, None, Some(keep)).unwrap();
    let article2 = reader2.parse().expect("article should be found");
    let content2 = article2.content.clone().unwrap();
    assert!(content2.contains("fancy"));
}

#[test]
fn test_article_new_is_empty() {
    let a = Article::new();
    assert!(a.title.is_none());
    assert!(a.content.is_none());
    assert!(a.text_content.is_none());
    assert_eq!(a.length, 0);
    assert!(a.excerpt.is_none());
    assert!(a.byline.is_none());
    assert!(a.dir.is_none());
    assert!(a.site_name.is_none());
    assert!(a.lang.is_none());
    assert!(a.published_time.is_none());
    assert!(a.raw_content.is_none());
}

#[test]
fn test_builder_defaults_and_overrides() {
    let d = ReadabilityOptions::default();
    assert_eq!(d.max_elems_to_parse, 0);
    assert_eq!(d.nb_top_candidates, 5);
    assert_eq!(d.char_threshold, 500);
    assert_eq!(d.classes_to_preserve, vec!["page".to_string()]);
    assert!(!d.keep_classes);
    assert!(!d.disable_json_ld);
    assert_eq!(d.link_density_modifier, 0);

    let o = ReadabilityOptions::builder()
        .debug(true)
        .max_elems_to_parse(9)
        .nb_top_candidates(3)
        .char_threshold(250)
        .classes_to_preserve(vec!["lead".to_string()])
        .keep_classes(true)
        .disable_json_ld(true)
        .allowed_video_regex(vec!["example-videos".to_string()])
        .link_density_modifier(-100)
        .build();
    assert!(o.debug);
    assert_eq!(o.max_elems_to_parse, 9);
    assert_eq!(o.nb_top_candidates, 3);
    assert_eq!(o.char_threshold, 250);
    assert_eq!(o.classes_to_preserve, vec!["lead".to_string()]);
    assert!(o.keep_classes);
    assert!(o.disable_json_ld);
    assert_eq!(o.allowed_video_regex, vec!["example-videos".to_string()]);
    assert_eq!(o.link_density_modifier, -100);
}

#[test]
fn test_raw_content_holds_precleaning_markup() {
    let p1 = long_text("Raw content keeps what cleaning later removes from the body. ", 520);
    let html = format!("<article><p>{}</p><footer>site footer</footer></article>", p1);

    let reader = Readability::new(&html, None, None).unwrap();
    let article = reader.parse().expect("article should be found");

    let raw = article.raw_content.clone().unwrap();
    let content = article.content.clone().unwrap();
    assert!(raw.contains("site footer"));
    assert!(!content.contains("site footer"));
}

#[test]
fn test_title_dedup_removes_only_first_heading() {
    let p1 = long_text("Duplicate headings should lose exactly one copy in cleaning. ", 520);
    let head = "<head><meta property=\"og:title\" content=\"Twice Told\"></head>";
    let html = format!(
        "{}<body><article><h1>Twice Told</h1><h1>Twice Told</h1><p>{}</p><p>{}</p></article></body>",
        head, p1, p1
    );

    let reader = Readability::new(&html, None, None).unwrap();
    let article = reader.parse().expect("article should be found");

    assert_eq!(article.title.as_deref(), Some("Twice Told"));
    let content = article.content.clone().unwrap();
    assert_eq!(content.matches("<h1").count(), 1);
}

#[test]
fn test_relative_links_resolved_against_base() {
    let p1 = long_text("Linked material appears inline within the article body text. ", 520);
    let html = format!(
        "<article><p>{}<a href=\"/about\">about</a><a href=\"notes.html\">notes</a><a href=\"https://other.example/x\">x</a></p><p>{}</p></article>",
        p1, p1
    );

    let base = "https://example.com/articles/post.html";
    let reader = Readability::new(&html, Some(base), None).unwrap();
    let article = reader.parse().expect("article should be found");

    let content = article.content.clone().unwrap();
    assert!(content.contains("href=\"https://example.com/about\""));
    assert!(content.contains("href=\"https://example.com/articles/notes.html\""));
    assert!(content.contains("href=\"https://other.example/x\""));
}

#[test]
fn test_title_element_sheds_site_name() {
    let p1 = long_text("The title heuristic trims the site name from the title element. ", 520);
    let html = format!(
        "<html><head><title>Harbor Notes | The Daily Port</title></head><body><article><p>{}</p></article></body></html>",
        p1
    );

    let reader = Readability::new(&html, None, None).unwrap();
    let article = reader.parse().expect("article should be found");
    assert_eq!(article.title.as_deref(), Some("Harbor Notes"));
}
