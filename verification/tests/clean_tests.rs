use article_extractor::clean::{clean_html, clean_html_with_selectors};

#[test]
fn test_clean_html_removes_nav() {
    let html = r#"<html><body><nav>Menu</nav><article>Content</article></body></html>"#;
    let cleaned = clean_html(html);
    assert!(!cleaned.contains("<nav>"));
    assert!(cleaned.contains("Content"));
}

#[test]
fn test_clean_html_removes_script() {
    let html = r#"<html><body><script>alert('ad')</script><p>Article text</p></body></html>"#;
    let cleaned = clean_html(html);
    assert!(!cleaned.contains("<script>"));
    assert!(cleaned.contains("Article text"));
}

#[test]
fn test_clean_html_removes_aside() {
    let html = r#"<html><body><aside class="sidebar">Related</aside><main>Main content</main></body></html>"#;
    let cleaned = clean_html(html);
    assert!(!cleaned.contains("<aside"));
    assert!(cleaned.contains("Main content"));
}

#[test]
fn test_clean_html_removes_ad_classes() {
    let html = r#"<html><body><div class="advertisement">Buy now</div><p>Real content</p></body></html>"#;
    let cleaned = clean_html(html);
    assert!(!cleaned.contains("advertisement"));
    assert!(cleaned.contains("Real content"));
}

#[test]
fn test_clean_html_removes_social_share() {
    let html = r#"<html><body><div class="social-share">Share this</div><article>Article</article></body></html>"#;
    let cleaned = clean_html(html);
    assert!(!cleaned.contains("social-share"));
    assert!(cleaned.contains("Article"));
}

#[test]
fn test_clean_html_preserves_main_content() {
    let html = r#"
            <html>
            <body>
                <header>Site header</header>
                <nav>Navigation</nav>
                <main>
                    <article>
                        <h1>Title</h1>
                        <p>This is the main article content.</p>
                    </article>
                </main>
                <aside>Sidebar</aside>
                <footer>Copyright</footer>
            </body>
            </html>
        "#;
    let cleaned = clean_html(html);
    assert!(!cleaned.contains("<header>"));
    assert!(!cleaned.contains("<nav>"));
    assert!(!cleaned.contains("<aside>"));
    assert!(!cleaned.contains("<footer>"));
    assert!(cleaned.contains("Title"));
    assert!(cleaned.contains("main article content"));
}

#[test]
fn test_clean_html_with_additional_selectors() {
    let html = r#"
            <html>
            <body>
                <div class="custom-ad">Custom advertisement</div>
                <div class="premium-banner">Premium content</div>
                <article>
                    <p>Main article content here.</p>
                </article>
                <div class="site-specific-widget">Widget</div>
            </body>
            </html>
        "#;
    let additional: Vec<String> = vec![
        ".custom-ad".to_string(),
        ".premium-banner".to_string(),
        ".site-specific-widget".to_string(),
    ];
    let cleaned = clean_html_with_selectors(html, &additional);
    assert!(!cleaned.contains("custom-ad"));
    assert!(!cleaned.contains("premium-banner"));
    assert!(!cleaned.contains("site-specific-widget"));
    assert!(cleaned.contains("Main article content here"));
}

#[test]
fn test_clean_html_with_empty_additional_selectors() {
    let html = r#"<html><body><nav>Menu</nav><p>Content</p></body></html>"#;
    let cleaned = clean_html_with_selectors(html, &Vec::new());
    assert!(!cleaned.contains("<nav>"));
    assert!(cleaned.contains("Content"));
}

#[test]
fn test_clean_removes_all_boilerplate_kinds_and_keeps_siblings() {
    let html = "<html><body>before <nav>N</nav><script>s()</script><aside>A</aside> after</body></html>";
    let cleaned = clean_html(html);
    assert!(!cleaned.contains("<nav>"));
    assert!(!cleaned.contains("<script>"));
    assert!(!cleaned.contains("<aside>"));
    assert!(cleaned.contains("before "));
    assert!(cleaned.contains(" after"));
}

#[test]
fn test_clean_collapses_blank_line_runs() {
    // no element matches an exclusion rule, so only the blank-line pass acts
    let cleaned = clean_html("a\n\n\n\nb");
    assert_eq!(cleaned, "a\n\nb");
}

#[test]
fn test_clean_keeps_two_blank_lines() {
    let cleaned = clean_html("a\n\nb");
    assert_eq!(cleaned, "a\n\nb");
}

#[test]
fn test_clean_is_idempotent_on_samples() {
    let samples = [
        r#"<html><body><header>H</header><nav>N</nav><div>body text</div><footer>F</footer></body></html>"#,
        "a\n\n\n\n   b\n\n\n\nc",
        r#"<html><body><div class="ads">x</div><p>keep</p></body></html>"#,
    ];
    for html in samples {
        let once = clean_html(html);
        let twice = clean_html(&once);
        assert_eq!(twice, once);
    }
}

#[test]
fn test_clean_empty_input() {
    assert_eq!(clean_html(""), "");
}
