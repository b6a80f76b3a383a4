use article_extractor::clean::clean_html;
use article_extractor::errors::AppError;
use article_extractor::extract::extract_main_content;
use article_extractor::feed::{DatePolicy, FeedDialect};
use article_extractor::site::{validate_selector, SiteConfig};

fn site(selectors: Vec<&str>, excludes: Vec<&str>) -> SiteConfig {
    SiteConfig::new(
        "Example Site".to_string(),
        "https://news.example.com/feed".to_string(),
        FeedDialect::Rss2,
        DatePolicy::Skip,
        selectors.into_iter().map(|s| s.to_string()).collect(),
        excludes.into_iter().map(|s| s.to_string()).collect(),
    )
}

#[test]
fn test_full_page_scenario() {
    let para = "Body text long enough to pass the length floor repeated several times for length. "
        .repeat(4);
    let html = format!(
        "<html><body><header>H</header><nav>N</nav>\
         <main><article><h1>T</h1><p>{}</p></article></main>\
         <aside>A</aside><footer>F</footer></body></html>",
        para
    );
    let cleaned = clean_html(&html);
    assert!(!cleaned.contains("<header>"));
    assert!(!cleaned.contains("<nav>"));
    assert!(!cleaned.contains("<aside>"));
    assert!(!cleaned.contains("<footer>"));

    let extracted = extract_main_content(&html).unwrap();
    assert!(extracted.contains("<h1>T</h1>"));
    assert!(extracted.contains("Body text long enough"));
}

#[test]
fn test_extract_article_pipeline() {
    let para = "Body text long enough to pass the length floor repeated several times for length. "
        .repeat(4);
    let html = format!(
        "<html><body><nav>N</nav><article><h1>T</h1><p>{}</p></article></body></html>",
        para
    );
    let config = site(vec!["article"], vec![]);
    let (out_html, out_text) = config.extract_article(&html).unwrap();
    assert!(out_html.contains("Body text long enough"));
    assert!(out_text.contains("Body text long enough"));
    // the final pass squashed every whitespace run of two or more
    assert!(!out_html.contains("  "));
    assert!(!out_text.contains("  "));
}

#[test]
fn test_extract_article_reports_extraction_error() {
    let config = site(vec!["#nothing"], vec![]);
    let html = "<html><body><p>tiny</p></body></html>";
    let result = config.extract_article(html);
    assert!(matches!(result, Err(AppError::ExtractionError(_))));
}

#[test]
fn test_extract_with_fallback_cleans_site_exclusions() {
    let para = "Words that belong to the body of the article and should stay in place. ".repeat(3);
    let html = format!(
        "<html><body><div id=\"custom\"><div class=\"promo\">Buy!</div><p>{}</p></div></body></html>",
        para
    );
    let config = site(vec![], vec![".promo"]);
    let content = config.extract_with_fallback(&html, "#custom").unwrap();
    assert!(!content.contains("promo"));
    assert!(content.contains("belong to the body"));
}

#[test]
fn test_trim_text_squashes_whitespace_runs() {
    let config = site(vec![], vec![]);
    assert_eq!(config.trim_text("a  b"), "a\nb");
    assert_eq!(config.trim_text("a b"), "a b");
    assert_eq!(config.trim_text("a\t\n b"), "a\nb");
    assert_eq!(config.trim_text("a\u{3000}\u{3000}b"), "a\nb");
    assert_eq!(config.trim_text(""), "");
}

#[test]
fn test_trim_text_is_idempotent_on_samples() {
    let config = site(vec![], vec![]);
    for s in ["a  b   c", " x ", "line\n\n\nline", "\t\t"] {
        let once = config.trim_text(s);
        assert_eq!(config.trim_text(&once), once);
    }
}

#[test]
fn test_validate_selector() {
    assert!(validate_selector("div.content > p").is_ok());
    assert!(matches!(
        validate_selector("["),
        Err(AppError::SelectorError(_))
    ));
}

#[test]
fn test_site_config_validate() {
    let good = site(vec!["article", "#main"], vec![".promo"]);
    assert!(good.validate().is_ok());
    let bad = site(vec!["article"], vec!["["]);
    assert!(matches!(bad.validate(), Err(AppError::SelectorError(_))));
}

#[test]
fn test_site_accessors_and_domain() {
    let config = site(vec![], vec![]);
    assert_eq!(config.site_name(), "Example Site");
    assert_eq!(config.site_url(), "https://news.example.com/feed");
    assert_eq!(config.domain().unwrap(), "news.example.com");
    assert!(matches!(
        config.get_domain("not a url"),
        Err(AppError::ParseError(_))
    ));
    // an address has no domain; the empty string stands in for it
    assert_eq!(config.get_domain("https://127.0.0.1/x").unwrap(), "");
}

#[test]
fn test_error_messages_carry_detail() {
    assert_eq!(AppError::ParseError("p".to_string()).message(), "p");
    assert_eq!(AppError::SelectorError("s".to_string()).message(), "s");
    assert_eq!(AppError::ExtractionError("e".to_string()).message(), "e");
    assert_eq!(AppError::TransportError("t".to_string()).message(), "t");
}
