//! Tests of the cleaning pipeline over markup strings.

use readabilityrs::{
    prep_article, remove_empty_paragraphs, remove_navigation_elements, remove_share_elements,
    remove_unwanted_elements,
};

#[test]
fn test_remove_unwanted_elements() {
    let html = r#"
            <article>
                <h1>Title</h1>
                <p>Content</p>
                <footer>Footer content</footer>
                <form><input type="text"></form>
            </article>
        "#;

    let cleaned = remove_unwanted_elements(html);

    assert!(cleaned.contains("<h1>Title</h1>"));
    assert!(cleaned.contains("<p>Content</p>"));
    assert!(!cleaned.contains("<footer"));
    assert!(!cleaned.contains("<form"));
}

#[test]
fn test_remove_empty_paragraphs() {
    let html = r#"
            <div>
                <p>Good paragraph</p>
                <p></p>
                <p>   </p>
                <p>Another good one</p>
            </div>
        "#;

    let cleaned = remove_empty_paragraphs(html);

    assert!(cleaned.contains("<p>Good paragraph</p>"));
    assert!(cleaned.contains("<p>Another good one</p>"));
    assert!(!cleaned.contains("<p></p>"));
    assert!(!cleaned.contains("<p>   </p>"));
}

#[test]
fn test_remove_share_elements() {
    let html = r##"
            <div>
                <p>Article content</p>
                <div class="share-buttons">
                    <a href="#">Share</a>
                </div>
                <div class="social-media">
                    <a href="#">Follow</a>
                </div>
            </div>
        "##;

    let cleaned = remove_share_elements(html);

    assert!(cleaned.contains("<p>Article content</p>"));
    assert!(!cleaned.contains("share-buttons"));
    assert!(!cleaned.contains("social-media"));
}

#[test]
fn test_remove_navigation_elements() {
    let html = r##"
            <div>
                <nav>Nav content</nav>
                <div class="navbar menu">
                    <ul>
                        <li><a href="#">Home</a></li>
                        <li><a href="#">About</a></li>
                    </ul>
                </div>
                <p>Main article paragraph</p>
            </div>
        "##;

    let cleaned = remove_navigation_elements(html);

    assert!(cleaned.contains("<p>Main article paragraph</p>"));
    assert!(!cleaned.contains("<nav>"));
    assert!(!cleaned.contains("navbar"));
}

#[test]
fn test_prep_article_full() {
    let html = r#"
            <article>
                <h1>Article Title</h1>
                <p>First paragraph</p>
                <p></p>
                <footer>Page footer</footer>
                <p>Second paragraph</p>
                <div class="share">Share this!</div>
                <form><input/></form>
            </article>
        "#;

    let cleaned = prep_article(html);

    assert!(cleaned.contains("<h1>Article Title</h1>"));
    assert!(cleaned.contains("<p>First paragraph</p>"));
    assert!(cleaned.contains("<p>Second paragraph</p>"));
    assert!(!cleaned.contains("<footer"));
    assert!(!cleaned.contains("<form"));
    assert!(!cleaned.contains("<p></p>"));
}

#[test]
fn test_empty_paragraph_removal_is_idempotent() {
    let html = r#"
            <div>
                <p>Kept text</p>
                <p>  </p>
                <p><p></p></p>
                <p><img src="pic.png"></p>
            </div>
        "#;

    let once = remove_empty_paragraphs(html);
    let twice = remove_empty_paragraphs(&once);

    assert_eq!(once, twice);
    assert!(once.contains("<p>Kept text</p>"));
    assert!(once.contains("img"));
}

#[test]
fn test_unwanted_sweep_keeps_allowed_structure() {
    let html = "<div><blockquote>Quoted words</blockquote><aside>chrome</aside></div>";

    let cleaned = remove_unwanted_elements(html);

    assert!(cleaned.contains("<blockquote>Quoted words</blockquote>"));
    assert!(!cleaned.contains("<aside>"));
}

#[test]
fn test_nav_wrapper_block_is_removed() {
    let html = r#"<div><div class="sidebar widget">links here</div><p>Story text</p></div>"#;

    let cleaned = remove_navigation_elements(html);

    assert!(cleaned.contains("<p>Story text</p>"));
    assert!(!cleaned.contains("links here"));
}
