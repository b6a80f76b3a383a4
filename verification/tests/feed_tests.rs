use article_extractor::article::{Status, Timestamp, WebArticle, WebArticleProperty};
use article_extractor::errors::AppError;
use article_extractor::feed::{normalize_feed, parse_feed, DatePolicy, FeedDialect};

fn rss2_doc(items: &str) -> String {
    format!(
        "<rss version=\"2.0\"><channel><title>Feed</title>\
         <link>http://example.com/</link><description>D</description>\
         {}</channel></rss>",
        items
    )
}

#[test]
fn test_rss2_cdata_title_round_trip() {
    let doc = rss2_doc(
        "<item><title><![CDATA[Hello]]></title>\
         <link>http://example.com/a</link>\
         <description>plain words</description>\
         <pubDate>Wed, 01 Jan 2020 00:00:00 +0000</pubDate></item>",
    );
    let arts = normalize_feed(
        "Site",
        "http://example.com/",
        FeedDialect::Rss2,
        &doc,
        DatePolicy::Fail,
    )
    .unwrap();
    assert_eq!(arts.len(), 1);
    assert_eq!(arts[0].title, "Hello");
    assert_eq!(arts[0].article_url, "http://example.com/a");
    assert_eq!(arts[0].site.name, "Site");
    assert_eq!(arts[0].timestamp.epoch_seconds, 1577836800);
    assert!(arts[0].text.is_empty());
    assert!(arts[0].html.is_empty());
}

#[test]
fn test_unparsable_date_fails_under_fail_policy() {
    let doc = rss2_doc(
        "<item><title>Good</title><link>http://example.com/a</link>\
         <pubDate>Wed, 01 Jan 2020 00:00:00 +0000</pubDate></item>\
         <item><title>Bad</title><link>http://example.com/b</link>\
         <pubDate>not a real date</pubDate></item>",
    );
    let result = normalize_feed(
        "Site",
        "http://example.com/",
        FeedDialect::Rss2,
        &doc,
        DatePolicy::Fail,
    );
    assert!(matches!(result, Err(AppError::ParseError(_))));
}

#[test]
fn test_unparsable_date_skipped_under_skip_policy() {
    let doc = rss2_doc(
        "<item><title>Good</title><link>http://example.com/a</link>\
         <pubDate>Wed, 01 Jan 2020 00:00:00 +0000</pubDate></item>\
         <item><title>Bad</title><link>http://example.com/b</link>\
         <pubDate>not a real date</pubDate></item>\
         <item><title>Dateless</title><link>http://example.com/c</link></item>",
    );
    let arts = normalize_feed(
        "Site",
        "http://example.com/",
        FeedDialect::Rss2,
        &doc,
        DatePolicy::Skip,
    )
    .unwrap();
    assert_eq!(arts.len(), 1);
    assert_eq!(arts[0].title, "Good");
}

#[test]
fn test_nonconforming_payload_is_a_parse_error() {
    // the item lacks the required link field
    let doc = rss2_doc("<item><title>Only a title</title></item>");
    let result = normalize_feed(
        "Site",
        "http://example.com/",
        FeedDialect::Rss2,
        &doc,
        DatePolicy::Skip,
    );
    assert!(matches!(result, Err(AppError::ParseError(_))));
}

#[test]
fn test_atom_dates_use_rfc3339() {
    let doc = "<feed xmlns=\"http://www.w3.org/2005/Atom\"><title>F</title>\
               <entry><title>E</title>\
               <link href=\"http://example.org/e\" rel=\"alternate\" type=\"text/html\"/>\
               <summary>s</summary>\
               <published>2020-01-01T00:00:00Z</published></entry></feed>";
    let arts = normalize_feed(
        "Site",
        "http://example.org/",
        FeedDialect::Atom,
        doc,
        DatePolicy::Fail,
    )
    .unwrap();
    assert_eq!(arts.len(), 1);
    assert_eq!(arts[0].timestamp.epoch_seconds, 1577836800);
}

#[test]
fn test_rss1_dates_accept_w3c_and_rfc2822() {
    let doc_w3c = "<rdf:RDF><channel><title>F</title>\
                   <link>http://example.com/</link><description>D</description>\
                   <item><title>A</title><link>http://example.com/a</link>\
                   <dc:date>2020-01-01T00:00:00Z</dc:date></item>\
                   </channel></rdf:RDF>";
    let arts = normalize_feed(
        "Site",
        "http://example.com/",
        FeedDialect::Rss1,
        doc_w3c,
        DatePolicy::Fail,
    )
    .unwrap();
    assert_eq!(arts[0].timestamp.epoch_seconds, 1577836800);

    let doc_2822 = "<rdf:RDF><channel><title>F</title>\
                    <link>http://example.com/</link><description>D</description>\
                    <item><title>A</title><link>http://example.com/a</link>\
                    <pubDate>Wed, 01 Jan 2020 00:00:00 +0000</pubDate></item>\
                    </channel></rdf:RDF>";
    let arts = normalize_feed(
        "Site",
        "http://example.com/",
        FeedDialect::Rss1,
        doc_2822,
        DatePolicy::Fail,
    )
    .unwrap();
    assert_eq!(arts[0].timestamp.epoch_seconds, 1577836800);
}

#[test]
fn test_parse_feed_dispatches_by_dialect() {
    let doc = rss2_doc(
        "<item><title>A</title><link>http://example.com/a</link></item>",
    );
    let entries = parse_feed(FeedDialect::Rss2, &doc).unwrap();
    assert_eq!(entries.len(), 1);
    assert_eq!(entries[0].title, "A");
    assert_eq!(entries[0].link, "http://example.com/a");
}

#[test]
fn test_description_is_rendered_as_markdown() {
    let article = WebArticle::new(
        "Site".to_string(),
        "http://example.com/".to_string(),
        "Title".to_string(),
        "http://example.com/a".to_string(),
        "<b>bold</b>".to_string(),
        Timestamp::new(0),
    );
    assert!(article.description.contains("**bold**"));
}

#[test]
fn test_cdata_unwrap_edge_cases() {
    let take = |title: &str| {
        WebArticle::new(
            "S".to_string(),
            "U".to_string(),
            title.to_string(),
            "A".to_string(),
            String::new(),
            Timestamp::new(0),
        )
        .title
    };
    // the whole field is replaced by the captured inner text
    assert_eq!(take("x<![CDATA[A]]>y"), "A");
    // an empty body never matches; the field is kept as it is
    assert_eq!(take("<![CDATA[]]>"), "<![CDATA[]]>");
    // a newline inside the body blocks the match at that opening
    assert_eq!(take("<![CDATA[a\nb]]>"), "<![CDATA[a\nb]]>");
    // the earliest closing marker ends the capture
    assert_eq!(take("<![CDATA[a]]>b]]>"), "a");
    assert_eq!(take("plain"), "plain");
}

#[test]
fn test_status_wire_names() {
    assert_eq!(Status::New.as_text(), "new");
    assert_eq!(Status::Archived.as_text(), "archived");
    assert_eq!(Status::default(), Status::New);
}

#[test]
fn test_default_properties_are_benign() {
    let p = WebArticleProperty::default();
    assert_eq!(p.summary.as_deref(), Some(""));
    assert_eq!(p.is_new_technology_related, Some(false));
    assert_eq!(p.is_new_product_related, Some(false));
    assert_eq!(p.is_new_academic_paper_related, Some(false));
    assert_eq!(p.is_ai_related, Some(false));
    assert_eq!(p.is_security_related, Some(false));
    assert_eq!(p.is_it_related, Some(false));
}

#[test]
fn test_date_policy_defaults_to_skip() {
    assert_eq!(DatePolicy::default(), DatePolicy::Skip);
}
