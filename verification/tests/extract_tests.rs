use article_extractor::extract::{extract_content_with_fallback, extract_main_content};

#[test]
fn test_extract_main_content_with_article_tag() {
    let html = r#"
            <html>
            <body>
                <header>Site Header</header>
                <nav>Navigation Menu</nav>
                <article>
                    <h1>Article Title</h1>
                    <p>This is the first paragraph of the article content.</p>
                    <p>This is the second paragraph with more detailed information.</p>
                    <p>And here is the conclusion of this wonderful article.</p>
                </article>
                <aside>Related Articles</aside>
                <footer>Copyright 2024</footer>
            </body>
            </html>
        "#;
    let result = extract_main_content(html);
    assert!(result.is_some());
    let content = result.unwrap();
    assert!(content.contains("Article Title"));
    assert!(content.contains("first paragraph"));
}

#[test]
fn test_extract_main_content_with_content_class() {
    let html = r#"
            <html>
            <body>
                <div class="sidebar">Sidebar content</div>
                <div class="content">
                    <h1>Main Content Title</h1>
                    <p>This is substantial content that should be extracted.</p>
                    <p>More paragraphs here to ensure sufficient text length.</p>
                    <p>Additional content to meet the minimum threshold.</p>
                </div>
            </body>
            </html>
        "#;
    let result = extract_main_content(html);
    assert!(result.is_some());
    let content = result.unwrap();
    assert!(content.contains("Main Content Title"));
}

#[test]
fn test_extract_content_with_fallback_primary_success() {
    // the matched node carries enough visible text to clear the
    // two-hundred-character floor that governs a configured selector
    let html = r#"
            <html>
            <body>
                <div id="custom-content">
                    <p>Content extracted by primary selector.</p>
                    <p>Enough additional words follow here so that the visible
                    text of this node comfortably clears the floor that the
                    selector phase puts on every configured selector match.</p>
                </div>
            </body>
            </html>
        "#;
    let result = extract_content_with_fallback(html, "#custom-content");
    assert!(result.is_some());
    assert!(result.unwrap().contains("primary selector"));
}

// A primary selector whose match is too short is not trusted: the floor
// sends extraction to the heuristic, and with nothing else to find the
// result is empty.
#[test]
fn test_extract_content_with_fallback_short_match_falls_through() {
    let html = r#"<html><body><div id="x">hi</div></body></html>"#;
    let result = extract_content_with_fallback(html, "#x");
    assert!(result.is_none());
}

#[test]
fn test_extract_content_with_fallback_uses_heuristic() {
    let html = r#"
            <html>
            <body>
                <article>
                    <h1>Fallback Article</h1>
                    <p>This content should be found by the heuristic fallback.</p>
                    <p>More content here to ensure it passes the threshold.</p>
                    <p>Even more substantial content for the extraction algorithm.</p>
                </article>
            </body>
            </html>
        "#;
    let result = extract_content_with_fallback(html, "#nonexistent-selector");
    assert!(result.is_some());
    assert!(result.unwrap().contains("Fallback Article"));
}

#[test]
fn test_extract_content_with_fallback_invalid_selector_falls_back() {
    let html = r#"
            <html>
            <body>
                <article>
                    <h1>Resilient Article</h1>
                    <p>An invalid selector must not break the extraction flow.</p>
                    <p>The heuristic fallback still finds the article body here.</p>
                    <p>Plenty of text keeps this above every length threshold.</p>
                </article>
            </body>
            </html>
        "#;
    let result = extract_content_with_fallback(html, "[");
    assert!(result.is_some());
    assert!(result.unwrap().contains("Resilient Article"));
}

// With all other factors equal, the candidate with more paragraphs
// scores at least as high; here it scores strictly higher and wins even
// though it comes second in document order. The two divs have the same
// serialized length and the same visible text length: only the paragraph
// count differs (<b> and <p> have equally long tags, but only <p> counts).
#[test]
fn test_more_paragraphs_win_the_heuristic() {
    let filler = "Shared body text that makes both candidates long enough to be scored. ";
    let html = format!(
        "<html><body>\
         <div>{f}{f}<b>u</b><b>v</b><b>w</b></div>\
         <div>{f}{f}<p>u</p><p>v</p><p>w</p></div>\
         </body></html>",
        f = filler
    );
    let result = extract_main_content(&html);
    assert!(result.is_some());
    let winner = result.unwrap();
    assert!(winner.contains("<p>"));
    assert!(!winner.contains("<b>"));
}

// Case-insensitive class matching: the second div wins only because its
// upper-case class still counts as an article marker after case folding.
// The two class names have the same length, so everything else is equal.
#[test]
fn test_class_bonus_is_case_insensitive() {
    let filler = "Shared body text that makes both candidates long enough to be scored. ";
    let html = format!(
        "<html><body>\
         <div class=\"zzzzzzz\">{f}{f}</div>\
         <div class=\"ARTICLE\">{f}{f}</div>\
         </body></html>",
        f = filler
    );
    let result = extract_main_content(&html);
    assert!(result.is_some());
    assert!(result.unwrap().contains("ARTICLE"));
}

// A link farm has negative score: every word is anchor text, so the link
// density penalty pushes the only candidate below zero and nothing is
// returned.
#[test]
fn test_link_farm_scores_below_zero() {
    let mut links = String::new();
    for _ in 0..40 {
        links.push_str("<a href=\"#\">word</a> ");
    }
    let html = format!("<html><body><div>{}</div></body></html>", links);
    let result = extract_main_content(&html);
    assert!(result.is_none());
}

// An element whose serialization is matched by a non-content rule is
// discarded no matter how good its text looks.
#[test]
fn test_non_content_candidate_is_discarded() {
    let filler = "Plenty of high quality prose that would otherwise easily win the scoring pass. ";
    let html = format!(
        "<html><body><div class=\"sidebar\">{f}{f}{f}</div></body></html>",
        f = filler
    );
    let result = extract_main_content(&html);
    assert!(result.is_none());
}

#[test]
fn test_extract_main_content_empty_document() {
    assert!(extract_main_content("").is_none());
}
