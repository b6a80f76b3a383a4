//! The canonical article record and its construction: CDATA unwrapping of
//! feed fields, Markdown conversion of the description, and the timestamp
//! model.

use vstd::prelude::*;

use crate::bridge::{chars_of, html_to_markdown, md_of, string_from_chars};
use crate::text::{cdata_unwrap, cdata_unwrap_chars};

verus! {

/// An instant, as seconds since the Unix epoch. The wall-clock rendering
/// in any particular time zone is a presentation concern left to callers.
#[derive(Debug, Clone, Copy, PartialEq, Eq, Structural)]
pub struct Timestamp {
    pub epoch_seconds: i64,
}

impl Timestamp {
    /// Builds the timestamp for the given epoch second.
    pub fn new(epoch_seconds: i64) -> (r: Timestamp)
        ensures
            r.epoch_seconds == epoch_seconds,
    {
        Timestamp { epoch_seconds }
    }
}

/// Lifecycle state of a stored article.
#[derive(Debug, Clone, Copy, PartialEq, Eq, Structural)]
pub enum Status {
    New,
    Archived,
}

impl Status {
    /// The wire name of the status.
    pub open spec fn text_spec(&self) -> Seq<char> {
        match self {
            Status::New => "new"@,
            Status::Archived => "archived"@,
        }
    }

    /// Returns the wire name of the status.
    pub fn as_text(&self) -> (r: String)
        ensures
            r@ == self.text_spec(),
    {
        match self {
            Status::New => "new".to_owned(),
            Status::Archived => "archived".to_owned(),
        }
    }
}

impl Default for Status {
    /// A freshly ingested article starts out as `New`.
    fn default() -> (r: Status)
        ensures
            r == Status::New,
    {
        Status::New
    }
}

/// Derived classification flags of an article; every field starts out
/// present and benign rather than absent.
#[derive(Debug, Clone)]
pub struct WebArticleProperty {
    pub summary: Option<String>,
    pub is_new_technology_related: Option<bool>,
    pub is_new_product_related: Option<bool>,
    pub is_new_academic_paper_related: Option<bool>,
    pub is_ai_related: Option<bool>,
    pub is_security_related: Option<bool>,
    pub is_it_related: Option<bool>,
}

/// The default classification: an empty summary and every flag false.
pub open spec fn props_default(p: WebArticleProperty) -> bool {
    &&& match p.summary {
        Option::Some(s) => s@ == Seq::<char>::empty(),
        Option::None => false,
    }
    &&& p.is_new_technology_related == Option::Some(false)
    &&& p.is_new_product_related == Option::Some(false)
    &&& p.is_new_academic_paper_related == Option::Some(false)
    &&& p.is_ai_related == Option::Some(false)
    &&& p.is_security_related == Option::Some(false)
    &&& p.is_it_related == Option::Some(false)
}

impl Default for WebArticleProperty {
    fn default() -> (r: WebArticleProperty)
        ensures
            props_default(r),
    {
        WebArticleProperty {
            summary: Some(String::new()),
            is_new_technology_related: Some(false),
            is_new_product_related: Some(false),
            is_new_academic_paper_related: Some(false),
            is_ai_related: Some(false),
            is_security_related: Some(false),
            is_it_related: Some(false),
        }
    }
}

/// A site, by display name and feed URL.
#[derive(Debug, Clone)]
pub struct WebSite {
    pub name: String,
    pub url: String,
}

impl WebSite {
    /// Builds a site record from its parts.
    pub fn new(name: String, url: String) -> (r: WebSite)
        ensures
            r.name@ == name@,
            r.url@ == url@,
    {
        WebSite { name, url }
    }
}

/// One canonical article. `text` and `html` stay empty until content
/// extraction succeeds for this article's URL; nothing else changes after
/// construction.
#[derive(Debug, Clone)]
pub struct WebArticle {
    pub site: WebSite,
    pub title: String,
    pub article_url: String,
    pub description: String,
    pub properties: WebArticleProperty,
    pub timestamp: Timestamp,
    pub text: String,
    pub html: String,
}

impl WebArticle {
    /// Builds an article from normalized feed fields: a CDATA-wrapped
    /// title is unwrapped, and the description is CDATA-unwrapped and
    /// rendered as Markdown; the content fields start out empty.
    pub fn new(
        site_name: String,
        site_url: String,
        title: String,
        article_url: String,
        description: String,
        timestamp: Timestamp,
    ) -> (r: WebArticle)
        ensures
            r.site.name@ == site_name@,
            r.site.url@ == site_url@,
            r.title@ == cdata_unwrap(title@),
            r.article_url@ == article_url@,
            r.description@ == md_of(cdata_unwrap(description@)),
            r.timestamp == timestamp,
            props_default(r.properties),
            r.text@ == Seq::<char>::empty(),
            r.html@ == Seq::<char>::empty(),
    {
        let tc = chars_of(title.as_str());
        let tu = cdata_unwrap_chars(&tc);
        let clean_title = string_from_chars(&tu);
        let dc = chars_of(description.as_str());
        let du = cdata_unwrap_chars(&dc);
        let clean_description = string_from_chars(&du);
        let description_md = html_to_markdown(clean_description.as_str());
        WebArticle {
            site: WebSite { name: site_name, url: site_url },
            title: clean_title,
            article_url,
            description: description_md,
            properties: WebArticleProperty::default(),
            timestamp,
            text: String::new(),
            html: String::new(),
        }
    }
}

/// Unwrapping the CDATA escape of a feed title recovers exactly the inner
/// text: a round trip through `<![CDATA[...]]>` is the identity on the
/// wrapped word.
pub proof fn lemma_cdata_round_trip()
    ensures
        cdata_unwrap("<![CDATA[Hello]]>"@) == "Hello"@,
{
    reveal_strlit("<![CDATA[Hello]]>");
    reveal_strlit("Hello");
    let s = "<![CDATA[Hello]]>"@;
    assert(s.len() == 17);
    assert(s.subrange(0, 9) =~= crate::text::cdata_open());
    assert(crate::text::match_at(s, crate::text::cdata_open(), 0));
    let close = crate::text::cdata_close();
    assert forall|j: int| 10 <= j < 14 implies !crate::text::match_at(s, close, j) by {
        if crate::text::match_at(s, close, j) {
            assert(s.subrange(j, j + 3)[0] == s[j]);
            assert(s[j] == ']');
            assert(false);
        }
    }
    assert(s.subrange(14, 17) =~= close);
    assert(crate::text::match_at(s, close, 14));
    assert(crate::text::scan_close(s, 14) == 14);
    assert(crate::text::scan_close(s, 13) == 14);
    assert(crate::text::scan_close(s, 12) == 14);
    assert(crate::text::scan_close(s, 11) == 14);
    assert(crate::text::scan_close(s, 10) == 14);
    assert(crate::text::find_open(s, 0) == 0);
    assert(cdata_unwrap(s) == s.subrange(9, 14));
    assert(s.subrange(9, 14) =~= "Hello"@);
}

} // verus!
