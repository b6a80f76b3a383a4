//! One data-driven record per site takes the place of per-site types: a
//! feed URL, a dialect tag, an ordered list of primary content selectors
//! and site-specific exclusion selectors, with the extraction pipeline as
//! its methods.

use vstd::prelude::*;

use crate::bridge::{
    chars_of, html_to_markdown, md_of, parse_url_domain, string_from_chars, url_domain_of,
};
use crate::clean::{clean_html_with_selectors, cleaned};
use crate::dom::{sel_ok, selector_is_valid};
use crate::errors::AppError;
use crate::extract::{
    article_pick, extract_content_with_fallback, extract_main_content, extract_spec, fallback_spec,
    heuristic_extract, probe_selectors,
};
use crate::feed::{DatePolicy, FeedDialect};
use crate::text::{squash_whitespace, squash_ws};

verus! {

/// Whether a selector string is acceptable configuration; an invalid one
/// is a configuration bug, reported before any fetch is attempted.
pub fn validate_selector(sel: &str) -> (r: Result<(), AppError>)
    ensures
        r is Ok <==> sel_ok(sel@),
        r is Err ==> r->Err_0 is SelectorError,
{
    if selector_is_valid(sel) {
        Ok(())
    } else {
        Err(AppError::SelectorError("selector string does not parse".to_owned()))
    }
}

/// The declarative description of one site: everything the pipeline
/// needs, held as plain data.
#[derive(Debug, Clone)]
pub struct SiteConfig {
    /// Stable display name.
    pub name: String,
    /// Feed URL.
    pub url: String,
    /// Feed schema family of the site's feed payload.
    pub dialect: FeedDialect,
    /// How to treat items whose date is missing or unparsable.
    pub date_policy: DatePolicy,
    /// Primary content selectors, tried in order.
    pub selectors: Vec<String>,
    /// Site-specific exclusion selectors, merged with the base taxonomy.
    pub exclude_selectors: Vec<String>,
}

impl SiteConfig {
    /// Builds a site record from its parts.
    pub fn new(
        name: String,
        url: String,
        dialect: FeedDialect,
        date_policy: DatePolicy,
        selectors: Vec<String>,
        exclude_selectors: Vec<String>,
    ) -> (r: SiteConfig)
        ensures
            r.name@ == name@,
            r.url@ == url@,
            r.dialect == dialect,
            r.date_policy == date_policy,
            r.selectors == selectors,
            r.exclude_selectors == exclude_selectors,
    {
        SiteConfig { name, url, dialect, date_policy, selectors, exclude_selectors }
    }

    /// The site's display name.
    pub fn site_name(&self) -> (r: String)
        ensures
            r@ == self.name@,
    {
        self.name.clone()
    }

    /// The site's feed URL.
    pub fn site_url(&self) -> (r: String)
        ensures
            r@ == self.url@,
    {
        self.url.clone()
    }

    /// The site-specific exclusion selectors.
    pub fn site_specific_exclude_selectors(&self) -> (r: &Vec<String>)
        ensures
            r == &self.exclude_selectors,
    {
        &self.exclude_selectors
    }

    /// Every configured selector parses; an `Err` names the selector
    /// configuration bug.
    pub fn validate(&self) -> (r: Result<(), AppError>)
        ensures
            r is Ok <==> ((forall|i: int|
                0 <= i < self.selectors.deep_view().len() ==> sel_ok(
                    #[trigger] self.selectors.deep_view()[i],
                )) && (forall|i: int|
                0 <= i < self.exclude_selectors.deep_view().len() ==> sel_ok(
                    #[trigger] self.exclude_selectors.deep_view()[i],
                ))),
            r is Err ==> r->Err_0 is SelectorError,
    {
        let mut i: usize = 0;
        while i < self.selectors.len()
            invariant
                i <= self.selectors.len(),
                forall|j: int|
                    0 <= j < i ==> sel_ok(#[trigger] self.selectors.deep_view()[j]),
            decreases self.selectors.len() - i,
        {
            proof {
                assert(self.selectors.deep_view()[i as int] == self.selectors@[i as int]@);
            }
            if !selector_is_valid(self.selectors[i].as_str()) {
                return Err(AppError::SelectorError("selector string does not parse".to_owned()));
            }
            i += 1;
        }
        let mut k: usize = 0;
        while k < self.exclude_selectors.len()
            invariant
                k <= self.exclude_selectors.len(),
                forall|j: int|
                    0 <= j < self.selectors.deep_view().len() ==> sel_ok(
                        #[trigger] self.selectors.deep_view()[j],
                    ),
                forall|j: int|
                    0 <= j < k ==> sel_ok(#[trigger] self.exclude_selectors.deep_view()[j]),
            decreases self.exclude_selectors.len() - k,
        {
            proof {
                assert(self.exclude_selectors.deep_view()[k as int]
                    == self.exclude_selectors@[k as int]@);
            }
            if !selector_is_valid(self.exclude_selectors[k].as_str()) {
                return Err(AppError::SelectorError("selector string does not parse".to_owned()));
            }
            k += 1;
        }
        Ok(())
    }

    /// The canonical hostname of a URL, for provenance tagging; a URL
    /// that parses but has no domain (an address, say) yields the empty
    /// string rather than an error.
    pub fn get_domain(&self, url: &str) -> (r: Result<String, AppError>)
        ensures
            match url_domain_of(url@) {
                Option::None => r is Err && r->Err_0 is ParseError,
                Option::Some(dom) => r matches Ok(d) && d@ == (match dom {
                    Option::Some(h) => h,
                    Option::None => Seq::<char>::empty(),
                }),
            },
    {
        match parse_url_domain(url) {
            None => Err(AppError::ParseError("URL does not parse".to_owned())),
            Some(None) => Ok(String::new()),
            Some(Some(d)) => Ok(d),
        }
    }

    /// The canonical hostname of this site's feed URL.
    pub fn domain(&self) -> (r: Result<String, AppError>)
        ensures
            match url_domain_of(self.url@) {
                Option::None => r is Err && r->Err_0 is ParseError,
                Option::Some(dom) => r matches Ok(d) && d@ == (match dom {
                    Option::Some(h) => h,
                    Option::None => Seq::<char>::empty(),
                }),
            },
    {
        self.get_domain(self.url.as_str())
    }

    /// Squash every whitespace run of two or more characters down to one
    /// newline.
    pub fn trim_text(&self, text: &str) -> (r: String)
        ensures
            r@ == squash_ws(text@),
    {
        let c = chars_of(text);
        let s = squash_whitespace(&c);
        string_from_chars(&s)
    }

    /// Clean a fragment with the base taxonomy plus this site's extras.
    pub fn clean_content(&self, html: &str) -> (r: String)
        ensures
            r@ == cleaned(html@, self.exclude_selectors.deep_view()),
    {
        clean_html_with_selectors(html, &self.exclude_selectors)
    }

    /// Extract by the primary selector with heuristic fallback, then
    /// clean the winning fragment.
    pub fn extract_with_fallback(&self, html: &str, selector: &str) -> (r: Option<String>)
        ensures
            match fallback_spec(html@, selector@) {
                Option::None => r is None,
                Option::Some(frag) => r matches Some(c) && c@ == cleaned(
                    frag,
                    self.exclude_selectors.deep_view(),
                ),
            },
    {
        match extract_content_with_fallback(html, selector) {
            Some(c) => Some(self.clean_content(c.as_str())),
            None => None,
        }
    }

    /// Extract by the scoring heuristic alone, then clean the winning
    /// fragment.
    pub fn extract_main_content_heuristic(&self, html: &str) -> (r: Option<String>)
        ensures
            match extract_spec(html@) {
                Option::None => r is None,
                Option::Some(frag) => r matches Some(c) && c@ == cleaned(
                    frag,
                    self.exclude_selectors.deep_view(),
                ),
            },
    {
        match extract_main_content(html) {
            Some(c) => Some(self.clean_content(c.as_str())),
            None => None,
        }
    }

    /// The whole pipeline for one article page: choose a fragment by the
    /// configured selectors with heuristic fallback, clean it, render it
    /// as Markdown, and squash whitespace in both representations.
    pub fn extract_article(&self, html: &str) -> (r: Result<(String, String), AppError>)
        ensures
            match article_pick(html@, self.selectors.deep_view()) {
                Option::None => r is Err && r->Err_0 is ExtractionError,
                Option::Some(frag) => r matches Ok(out) && out.0@ == squash_ws(
                    cleaned(frag, self.exclude_selectors.deep_view()),
                ) && out.1@ == squash_ws(
                    md_of(cleaned(frag, self.exclude_selectors.deep_view())),
                ),
            },
    {
        if !selector_is_valid("p") || !selector_is_valid("a") {
            return Err(AppError::ExtractionError("no content element found".to_owned()));
        }
        let picked = match probe_selectors(html, &self.selectors) {
            Some(f) => Some(f),
            None => heuristic_extract(html),
        };
        match picked {
            None => Err(AppError::ExtractionError("no content element found".to_owned())),
            Some(frag) => {
                let cleaned_html = clean_html_with_selectors(frag.as_str(), &self.exclude_selectors);
                let markdown = html_to_markdown(cleaned_html.as_str());
                let hc = chars_of(cleaned_html.as_str());
                let hs = squash_whitespace(&hc);
                let html_out = string_from_chars(&hs);
                let tc = chars_of(markdown.as_str());
                let ts = squash_whitespace(&tc);
                let text_out = string_from_chars(&ts);
                Ok((html_out, text_out))
            },
        }
    }
}

} // verus!
