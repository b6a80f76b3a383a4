//! Feed normalization: parse an RSS 1.0, RSS 2.0 or Atom payload into
//! entries, pick each entry's native date field, coerce it to one
//! timestamp type, and build canonical article records. A missing or
//! unparsable date is handled by an explicit policy: fail the whole feed,
//! or skip the item and continue.

use vstd::prelude::*;

use crate::article::{props_default, Timestamp, WebArticle};
use crate::bridge::{md_of, parse_rfc2822, parse_rfc3339, rfc2822_sec, rfc3339_sec};
use crate::errors::AppError;
use crate::text::cdata_unwrap;

verus! {

/// The XML schema family a feed payload conforms to.
#[derive(Debug, Clone, Copy, PartialEq, Eq, Structural)]
pub enum FeedDialect {
    Rss1,
    Rss2,
    Atom,
}

/// What to do with a feed item whose date is missing or unparsable.
#[derive(Debug, Clone, Copy, PartialEq, Eq, Structural)]
pub enum DatePolicy {
    /// Fail the whole feed with a parse error.
    Fail,
    /// Drop the item and keep the rest of the feed.
    Skip,
}

impl Default for DatePolicy {
    /// Production ingestion prefers robustness: skip the bad item.
    fn default() -> (r: DatePolicy)
        ensures
            r == DatePolicy::Skip,
    {
        DatePolicy::Skip
    }
}

/// One feed entry, as the feed parser hands it over.
#[derive(Debug, Clone)]
pub struct FeedEntry {
    pub title: String,
    pub link: String,
    pub description: Option<String>,
    pub summary: Option<String>,
    pub updated: Option<String>,
    pub publish_date: Option<String>,
    pub creator: Option<String>,
    pub date: Option<String>,
    pub other: Option<String>,
}

/// Specification-level image of [`FeedEntry`].
pub struct FeedEntryV {
    pub title: Seq<char>,
    pub link: Seq<char>,
    pub description: Option<Seq<char>>,
    pub summary: Option<Seq<char>>,
    pub updated: Option<Seq<char>>,
    pub publish_date: Option<Seq<char>>,
    pub creator: Option<Seq<char>>,
    pub date: Option<Seq<char>>,
    pub other: Option<Seq<char>>,
}

impl DeepView for FeedEntry {
    type V = FeedEntryV;

    open spec fn deep_view(&self) -> FeedEntryV {
        FeedEntryV {
            title: self.title@,
            link: self.link@,
            description: self.description.deep_view(),
            summary: self.summary.deep_view(),
            updated: self.updated.deep_view(),
            publish_date: self.publish_date.deep_view(),
            creator: self.creator.deep_view(),
            date: self.date.deep_view(),
            other: self.other.deep_view(),
        }
    }
}

/// What `feed_parser::parsers::rss1::parse` returns: the entries of an
/// RSS 1.0 payload, or nothing when it does not conform.
pub uninterp spec fn rss1_of(s: Seq<char>) -> Option<Seq<FeedEntryV>>;

/// What `feed_parser::parsers::rss2::parse` returns: the entries of an
/// RSS 2.0 payload, or nothing when it does not conform.
pub uninterp spec fn rss2_of(s: Seq<char>) -> Option<Seq<FeedEntryV>>;

/// What `feed_parser::parsers::atom::parse` returns: the entries of an
/// Atom payload, or nothing when it does not conform.
pub uninterp spec fn atom_of(s: Seq<char>) -> Option<Seq<FeedEntryV>>;

/// Relies on `feed_parser::parsers::rss1::parse`.
#[verifier::external_body]
fn parse_rss1(s: &str) -> (r: Option<Vec<FeedEntry>>)
    ensures
        r.deep_view() == rss1_of(s@),
{
    match feed_parser::parsers::rss1::parse(s) {
        Ok(items) => Some(items.into_iter().map(|f| FeedEntry {
            title: f.title,
            link: f.link,
            description: f.description,
            summary: f.summary,
            updated: f.updated,
            publish_date: f.publish_date,
            creator: f.creator,
            date: f.date,
            other: f.other,
        }).collect()),
        Err(_) => None,
    }
}

/// Relies on `feed_parser::parsers::rss2::parse`.
#[verifier::external_body]
fn parse_rss2(s: &str) -> (r: Option<Vec<FeedEntry>>)
    ensures
        r.deep_view() == rss2_of(s@),
{
    match feed_parser::parsers::rss2::parse(s) {
        Ok(items) => Some(items.into_iter().map(|f| FeedEntry {
            title: f.title,
            link: f.link,
            description: f.description,
            summary: f.summary,
            updated: f.updated,
            publish_date: f.publish_date,
            creator: f.creator,
            date: f.date,
            other: f.other,
        }).collect()),
        Err(_) => None,
    }
}

/// Relies on `feed_parser::parsers::atom::parse`.
#[verifier::external_body]
fn parse_atom(s: &str) -> (r: Option<Vec<FeedEntry>>)
    ensures
        r.deep_view() == atom_of(s@),
{
    match feed_parser::parsers::atom::parse(s) {
        Ok(items) => Some(items.into_iter().map(|f| FeedEntry {
            title: f.title,
            link: f.link,
            description: f.description,
            summary: f.summary,
            updated: f.updated,
            publish_date: f.publish_date,
            creator: f.creator,
            date: f.date,
            other: f.other,
        }).collect()),
        Err(_) => None,
    }
}

/// The entries of a payload under the declared dialect.
pub open spec fn feed_of(d: FeedDialect, s: Seq<char>) -> Option<Seq<FeedEntryV>> {
    match d {
        FeedDialect::Rss1 => rss1_of(s),
        FeedDialect::Rss2 => rss2_of(s),
        FeedDialect::Atom => atom_of(s),
    }
}

/// Parse a feed payload under the declared dialect.
pub fn parse_feed(d: FeedDialect, body: &str) -> (r: Option<Vec<FeedEntry>>)
    ensures
        r.deep_view() == feed_of(d, body@),
{
    match d {
        FeedDialect::Rss1 => parse_rss1(body),
        FeedDialect::Rss2 => parse_rss2(body),
        FeedDialect::Atom => parse_atom(body),
    }
}

/// The entry's native date field: the publish date when present, then the
/// Dublin Core date, then the update date.
pub open spec fn entry_date_str(e: FeedEntryV) -> Option<Seq<char>> {
    match e.publish_date {
        Option::Some(s) => Option::Some(s),
        Option::None => match e.date {
            Option::Some(s) => Option::Some(s),
            Option::None => e.updated,
        },
    }
}

/// The timestamp a date string encodes under the dialect's native format:
/// RFC 2822 for RSS 2.0, RFC 3339 for Atom, and for RSS 1.0 the W3C
/// profile (RFC 3339) with RFC 2822 accepted as a fallback.
pub open spec fn date_epoch(d: FeedDialect, s: Seq<char>) -> Option<i64> {
    match d {
        FeedDialect::Rss2 => rfc2822_sec(s),
        FeedDialect::Atom => rfc3339_sec(s),
        FeedDialect::Rss1 => match rfc3339_sec(s) {
            Option::Some(t) => Option::Some(t),
            Option::None => rfc2822_sec(s),
        },
    }
}

/// The timestamp of an entry, if it has a date that parses.
pub open spec fn entry_epoch(d: FeedDialect, e: FeedEntryV) -> Option<i64> {
    match entry_date_str(e) {
        Option::Some(s) => date_epoch(d, s),
        Option::None => Option::None,
    }
}

/// The entries that carry a parsable date, in feed order.
pub open spec fn dated_entries(d: FeedDialect, es: Seq<FeedEntryV>) -> Seq<FeedEntryV>
    decreases es.len(),
{
    if es.len() == 0 {
        es
    } else if entry_epoch(d, es[0]) is Some {
        seq![es[0]] + dated_entries(d, es.skip(1))
    } else {
        dated_entries(d, es.skip(1))
    }
}

proof fn lemma_dated_push(d: FeedDialect, es: Seq<FeedEntryV>, e: FeedEntryV)
    ensures
        dated_entries(d, es.push(e)) == (if entry_epoch(d, e) is Some {
            dated_entries(d, es).push(e)
        } else {
            dated_entries(d, es)
        }),
    decreases es.len(),
{
    assert(es.push(e).len() == es.len() + 1);
    assert(dated_entries(d, es.push(e)) == (if entry_epoch(d, es.push(e)[0]) is Some {
        seq![es.push(e)[0]] + dated_entries(d, es.push(e).skip(1))
    } else {
        dated_entries(d, es.push(e).skip(1))
    }));
    if es.len() == 0 {
        assert(es.push(e)[0] == e);
        assert(es.push(e).skip(1) =~= Seq::<FeedEntryV>::empty());
        assert(dated_entries(d, Seq::<FeedEntryV>::empty()) =~= Seq::<FeedEntryV>::empty());
        if entry_epoch(d, e) is Some {
            assert(seq![e] + Seq::<FeedEntryV>::empty() =~= dated_entries(d, es).push(e));
        }
    } else {
        assert(es.push(e)[0] == es[0]);
        assert(es.push(e).skip(1) =~= es.skip(1).push(e));
        lemma_dated_push(d, es.skip(1), e);
        if entry_epoch(d, es[0]) is Some {
            if entry_epoch(d, e) is Some {
                assert(seq![es[0]] + dated_entries(d, es.skip(1)).push(e) =~= (seq![es[0]]
                    + dated_entries(d, es.skip(1))).push(e));
            }
        }
    }
}

/// The article built for `e` carries the caller's site identity, the
/// CDATA-unwrapped title, the entry's link, the Markdown rendering of the
/// CDATA-unwrapped description (empty when absent), the entry's
/// timestamp, and empty content.
pub open spec fn article_matches(
    a: WebArticle,
    sn: Seq<char>,
    su: Seq<char>,
    d: FeedDialect,
    e: FeedEntryV,
) -> bool {
    &&& a.site.name@ == sn
    &&& a.site.url@ == su
    &&& a.title@ == cdata_unwrap(e.title)
    &&& a.article_url@ == e.link
    &&& a.description@ == md_of(
        cdata_unwrap(
            match e.description {
                Option::Some(dsc) => dsc,
                Option::None => Seq::<char>::empty(),
            },
        ),
    )
    &&& Option::Some(a.timestamp.epoch_seconds) == entry_epoch(d, e)
    &&& props_default(a.properties)
    &&& a.text@.len() == 0
    &&& a.html@.len() == 0
}

/// Parse the date string of one entry under the dialect's format.
fn parse_entry_date(d: FeedDialect, s: &str) -> (r: Option<i64>)
    ensures
        r == date_epoch(d, s@),
{
    match d {
        FeedDialect::Rss2 => parse_rfc2822(s),
        FeedDialect::Atom => parse_rfc3339(s),
        FeedDialect::Rss1 => match parse_rfc3339(s) {
            Some(t) => Some(t),
            None => parse_rfc2822(s),
        },
    }
}

/// Normalize a feed payload into canonical article records.
///
/// Fails with a parse error when the payload does not conform to the
/// declared dialect and, under the `Fail` date policy, when any entry's
/// date is missing or unparsable; under the `Skip` policy such entries
/// are dropped and the rest are kept, in feed order.
pub fn normalize_feed(
    site_name: &str,
    site_url: &str,
    dialect: FeedDialect,
    body: &str,
    policy: DatePolicy,
) -> (r: Result<Vec<WebArticle>, AppError>)
    ensures
        r is Ok <==> (feed_of(dialect, body@) is Some && (policy == DatePolicy::Skip || forall|
            j: int,
        |
            0 <= j < feed_of(dialect, body@).unwrap().len() ==> entry_epoch(
                dialect,
                #[trigger] feed_of(dialect, body@).unwrap()[j],
            ) is Some)),
        r is Err ==> r->Err_0 is ParseError,
        r is Ok ==> ({
            let es = feed_of(dialect, body@).unwrap();
            let kept = dated_entries(dialect, es);
            let out = (r->Ok_0)@;
            out.len() == kept.len() && (forall|i: int|
                0 <= i < kept.len() ==> article_matches(
                    #[trigger] out[i],
                    site_name@,
                    site_url@,
                    dialect,
                    kept[i],
                ))
        }),
{
    let entries = match parse_feed(dialect, body) {
        Some(es) => es,
        None => {
            return Err(AppError::ParseError("feed payload does not conform to dialect".to_owned()));
        },
    };
    let ghost es = entries.deep_view();
    let mut out: Vec<WebArticle> = Vec::new();
    let mut i: usize = 0;
    proof {
        assert(es.take(0) =~= Seq::<FeedEntryV>::empty());
    }
    while i < entries.len()
        invariant
            i <= entries.len(),
            es == entries.deep_view(),
            feed_of(dialect, body@) == Option::Some(es),
            out@.len() == dated_entries(dialect, es.take(i as int)).len(),
            forall|k: int|
                0 <= k < out@.len() ==> article_matches(
                    #[trigger] out@[k],
                    site_name@,
                    site_url@,
                    dialect,
                    dated_entries(dialect, es.take(i as int))[k],
                ),
            policy == DatePolicy::Fail ==> forall|j: int|
                0 <= j < i ==> entry_epoch(dialect, #[trigger] es[j]) is Some,
        decreases entries.len() - i,
    {
        proof {
            assert(es.take(i as int + 1) =~= es.take(i as int).push(es[i as int]));
            lemma_dated_push(dialect, es.take(i as int), es[i as int]);
            assert(es[i as int] == entries@[i as int].deep_view());
        }
        let entry = &entries[i];
        let date_str: Option<&String> = match &entry.publish_date {
            Some(s) => Some(s),
            None => match &entry.date {
                Some(s) => Some(s),
                None => match &entry.updated {
                    Some(s) => Some(s),
                    None => None,
                },
            },
        };
        let epoch: Option<i64> = match date_str {
            Some(s) => parse_entry_date(dialect, s.as_str()),
            None => None,
        };
        proof {
            assert(epoch == entry_epoch(dialect, es[i as int]));
        }
        match epoch {
            Some(t) => {
                let description = match &entry.description {
                    Some(dsc) => dsc.clone(),
                    None => String::new(),
                };
                let article = WebArticle::new(
                    site_name.to_owned(),
                    site_url.to_owned(),
                    entry.title.clone(),
                    entry.link.clone(),
                    description,
                    Timestamp::new(t),
                );
                out.push(article);
            },
            None => {
                match policy {
                    DatePolicy::Fail => {
                        return Err(
                            AppError::ParseError("feed item date is missing or unparsable".to_owned()),
                        );
                    },
                    DatePolicy::Skip => {},
                }
            },
        }
        i += 1;
    }
    proof {
        assert(es.take(entries.len() as int) =~= es);
    }
    Ok(out)
}

} // verus!
