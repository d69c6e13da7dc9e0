//! Tests of the quick readerable check.

use readabilityrs::{is_probably_readerable, ReaderableOptions};

#[test]
fn test_is_probably_readerable() {
    let html = r#"
            <html>
                <body>
                    <article>
                        <p>This is a long enough paragraph that should make the content readerable.
                        It has sufficient content to pass the minimum threshold check. Adding more text here to ensure
                        we definitely exceed the 140 character minimum requirement for each paragraph element.</p>
                        <p>Another paragraph with more content to increase the score. This paragraph also needs to be
                        long enough to contribute to the overall readability score calculation and help us pass the test.</p>
                    </article>
                </body>
            </html>
        "#;

    assert!(is_probably_readerable(html, None));
}

#[test]
fn test_not_readerable() {
    let html = r#"
            <html>
                <body>
                    <p>Short</p>
                </body>
            </html>
        "#;

    assert!(!is_probably_readerable(html, None));
}

#[test]
fn test_quick_check_same_input_same_answer() {
    let html = "<article><p>Some words of middling length, repeated a few times to sit near the threshold. Some words of middling length, repeated again.</p></article>";
    let first = is_probably_readerable(html, None);
    let second = is_probably_readerable(html, None);
    assert_eq!(first, second);

    let opts1 = ReaderableOptions { min_content_length: 10, min_score: 1 };
    let opts2 = ReaderableOptions { min_content_length: 10, min_score: 1 };
    let third = is_probably_readerable(html, Some(opts1));
    let fourth = is_probably_readerable(html, Some(opts2));
    assert_eq!(third, fourth);
    assert!(third);
}

#[test]
fn test_readerable_threshold_options() {
    let body = "word ".repeat(60);
    let html = format!("<div><p>{}</p></div>", body);

    let strict = ReaderableOptions { min_content_length: 140, min_score: 500 };
    assert!(!is_probably_readerable(&html, Some(strict)));

    let lax = ReaderableOptions { min_content_length: 50, min_score: 1 };
    assert!(is_probably_readerable(&html, Some(lax)));
}

#[test]
fn test_readerable_score_boundary() {
    // one paragraph of exactly four characters, with no minimum length:
    // the contribution is the tenth-scaled square root of 400, exactly 20
    let html = "<div><p>word</p></div>";

    let at_two = ReaderableOptions { min_content_length: 0, min_score: 2 };
    assert!(!is_probably_readerable(html, Some(at_two)));

    let at_one = ReaderableOptions { min_content_length: 0, min_score: 1 };
    assert!(is_probably_readerable(html, Some(at_one)));
}
