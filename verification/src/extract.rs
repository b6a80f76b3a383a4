//! Main-content extraction: probe a list of content-like selectors and
//! accept the first sufficiently long match; failing that, score every
//! `div`, `section`, `article` and `main` element and keep the best
//! strictly positive scorer.

use vstd::prelude::*;

use crate::clean::vec_contains_string;
use crate::dom::{doc_matches, elem_facts, sel_ok, select_facts, select_html, selector_is_valid};
use crate::dom::{ElemFacts, ElemFactsV};
use crate::score::{score_den, score_num, sum_lens, LEN_LIMIT};
use crate::score::{flat_bonus, link_text_len};
use crate::bridge::{chars_of, lowercase};
use crate::text::contains_sub;
use vstd::string::StrSliceExecFns;

verus! {

/// Selectors probed first, in order, for an element that looks like the
/// article body.
pub open spec fn content_sels() -> Seq<Seq<char>> {
    seq![
        "article"@,
        "main"@,
        "[role='main']"@,
        ".article"@,
        ".content"@,
        ".post"@,
        ".entry"@,
        ".post-content"@,
        ".article-content"@,
        ".entry-content"@,
        "#content"@,
        "#main"@,
        "#article"@,
    ]
}

/// Executable form of [`content_sels`].
fn content_selectors() -> (r: Vec<&'static str>)
    ensures
        r.deep_view() == content_sels(),
{
    let r: Vec<&'static str> = vec![
        "article",
        "main",
        "[role='main']",
        ".article",
        ".content",
        ".post",
        ".entry",
        ".post-content",
        ".article-content",
        ".entry-content",
        "#content",
        "#main",
        "#article",
    ];
    proof {
        assert(r.deep_view() =~= content_sels());
    }
    r
}

/// Selectors naming elements that must not win the heuristic phase.
pub open spec fn non_content_sels() -> Seq<Seq<char>> {
    seq![
        "nav"@,
        "header"@,
        "footer"@,
        "aside"@,
        ".sidebar"@,
        ".menu"@,
        ".navigation"@,
        ".comment"@,
        ".comments"@,
        ".footer"@,
        ".header"@,
    ]
}

/// Executable form of [`non_content_sels`].
fn non_content_selectors() -> (r: Vec<&'static str>)
    ensures
        r.deep_view() == non_content_sels(),
{
    let r: Vec<&'static str> = vec![
        "nav",
        "header",
        "footer",
        "aside",
        ".sidebar",
        ".menu",
        ".navigation",
        ".comment",
        ".comments",
        ".footer",
        ".header",
    ];
    proof {
        assert(r.deep_view() =~= non_content_sels());
    }
    r
}

/// The candidate pool of the heuristic phase.
pub open spec fn cand_sel() -> Seq<char> {
    "div, section, article, main"@
}

/// The fragment serializes identically to some element matched by a
/// non-content selector. This is deliberately a comparison of serialized
/// HTML, as the removal pass is: two distinct elements with byte-identical
/// serializations are indistinguishable here.
pub open spec fn is_non_content(doc: Seq<char>, frag: Seq<char>) -> bool {
    exists|k: int|
        0 <= k < non_content_sels().len() && sel_ok(#[trigger] non_content_sels()[k])
            && doc_matches(doc, non_content_sels()[k]).contains(frag)
}

/// Executable form of [`is_non_content`].
fn is_non_content_exec(doc: &str, frag: &String) -> (r: bool)
    ensures
        r == is_non_content(doc@, frag@),
{
    let nc = non_content_selectors();
    let mut k: usize = 0;
    while k < nc.len()
        invariant
            k <= nc.len(),
            nc.deep_view() == non_content_sels(),
            forall|m: int|
                0 <= m < k ==> !(sel_ok(#[trigger] non_content_sels()[m]) && doc_matches(
                    doc@,
                    non_content_sels()[m],
                ).contains(frag@)),
        decreases nc.len() - k,
    {
        proof {
            assert(nc.deep_view()[k as int] == nc@[k as int]@);
        }
        if selector_is_valid(nc[k]) {
            let ms = select_html(doc, nc[k]);
            if vec_contains_string(&ms, frag) {
                proof {
                    assert(ms.deep_view().contains(frag@));
                    assert(sel_ok(non_content_sels()[k as int]) && doc_matches(
                        doc@,
                        non_content_sels()[k as int],
                    ).contains(frag@));
                }
                return true;
            }
            proof {
                if ms.deep_view().contains(frag@) {
                    assert(false);
                }
            }
        }
        k += 1;
    }
    false
}

/// The selector-probing phase: for each selector in order, if it parses
/// and matches at least one element whose visible text is longer than two
/// hundred characters, that first match wins immediately.
pub open spec fn sel_phase(doc: Seq<char>, sels: Seq<Seq<char>>) -> Option<Seq<char>>
    decreases sels.len(),
{
    if sels.len() == 0 {
        Option::None
    } else if sel_ok(sels[0]) && elem_facts(doc, sels[0], "p"@, "a"@).len() > 0 && elem_facts(
        doc,
        sels[0],
        "p"@,
        "a"@,
    )[0].text.len() > 200 {
        Option::Some(elem_facts(doc, sels[0], "p"@, "a"@)[0].html)
    } else {
        sel_phase(doc, sels.skip(1))
    }
}

/// A candidate survives the heuristic filters: at least one hundred
/// characters of visible text, not a non-content element, and each
/// measured length under [`LEN_LIMIT`].
pub open spec fn cand_ok(doc: Seq<char>, f: ElemFactsV) -> bool {
    &&& f.text.len() >= 100
    &&& !is_non_content(doc, f.html)
    &&& f.text.len() < LEN_LIMIT
    &&& f.html.len() < LEN_LIMIT
    &&& sum_lens(f.anchor_texts) < LEN_LIMIT
}

/// Fold over the candidates keeping the best strictly improving score;
/// the accumulator starts at zero, so only a strictly positive score is
/// ever returned, and ties keep the earlier element.
pub open spec fn pick_best(
    doc: Seq<char>,
    cands: Seq<ElemFactsV>,
    bn: int,
    bd: int,
    best: Option<Seq<char>>,
) -> Option<Seq<char>>
    decreases cands.len(),
{
    if cands.len() == 0 {
        best
    } else if cand_ok(doc, cands[0]) && score_num(cands[0]) * bd > bn * score_den(cands[0]) {
        pick_best(
            doc,
            cands.skip(1),
            score_num(cands[0]),
            score_den(cands[0]),
            Option::Some(cands[0].html),
        )
    } else {
        pick_best(doc, cands.skip(1), bn, bd, best)
    }
}

/// The heuristic phase over every `div`, `section`, `article` and `main`
/// element of the document.
pub open spec fn heuristic_spec(doc: Seq<char>) -> Option<Seq<char>> {
    if sel_ok(cand_sel()) {
        pick_best(doc, elem_facts(doc, cand_sel(), "p"@, "a"@), 0, 1, Option::None)
    } else {
        Option::None
    }
}

/// What main-content extraction returns: the selector phase's winner if
/// any, otherwise the heuristic phase's winner if any. The paragraph and
/// anchor sub-selectors must themselves parse for any element query to be
/// made at all.
pub open spec fn extract_spec(doc: Seq<char>) -> Option<Seq<char>> {
    if !(sel_ok("p"@) && sel_ok("a"@)) {
        Option::None
    } else {
        match sel_phase(doc, content_sels()) {
            Option::Some(h) => Option::Some(h),
            Option::None => heuristic_spec(doc),
        }
    }
}

/// Numerator and denominator of one candidate's score, with the bounds
/// that make later cross-multiplications fit in 128 bits.
fn score_candidate(f: &ElemFacts, tl: usize, hl: usize, ll: usize) -> (r: (i128, i128))
    requires
        tl == f.deep_view().text.len(),
        hl == f.deep_view().html.len(),
        ll == sum_lens(f.deep_view().anchor_texts),
        100 <= tl < LEN_LIMIT,
        hl < LEN_LIMIT,
        ll < LEN_LIMIT,
    ensures
        r.0 as int == score_num(f.deep_view()),
        r.1 as int == score_den(f.deep_view()),
        1 <= r.1 as int <= ((LEN_LIMIT as int) * (LEN_LIMIT as int)),
        -75 * ((LEN_LIMIT as int) * (LEN_LIMIT as int)) <= r.0 as int,
        r.0 as int <= 230 * ((LEN_LIMIT as int) * (LEN_LIMIT as int)),
{
    let t: i128 = tl as i128;
    let h: i128 = hl as i128;
    let l: i128 = ll as i128;
    let pm: i128 = if f.para_count >= 10 {
        10
    } else {
        f.para_count as i128
    };
    let mut c: i128 = 5 * pm;
    if tl > 500 {
        c += 20;
    }
    if tl > 1000 {
        c += 10;
    }
    match &f.class_attr {
        Option::Some(cl) => {
            let lc = lowercase(cl.as_str());
            let lcv = chars_of(lc.as_str());
            let p1 = chars_of("article");
            let p2 = chars_of("content");
            let p3 = chars_of("post");
            if contains_sub(&lcv, &p1) || contains_sub(&lcv, &p2) || contains_sub(&lcv, &p3) {
                c += 25;
            }
            let n1 = chars_of("sidebar");
            let n2 = chars_of("comment");
            let n3 = chars_of("nav");
            if contains_sub(&lcv, &n1) || contains_sub(&lcv, &n2) || contains_sub(&lcv, &n3) {
                c -= 25;
            }
        },
        Option::None => {},
    }
    match &f.id_attr {
        Option::Some(idv) => {
            let lc = lowercase(idv.as_str());
            let lcv = chars_of(lc.as_str());
            let p1 = chars_of("article");
            let p2 = chars_of("content");
            let p3 = chars_of("main");
            if contains_sub(&lcv, &p1) || contains_sub(&lcv, &p2) || contains_sub(&lcv, &p3) {
                c += 25;
            }
        },
        Option::None => {},
    }
    proof {
        assert(c as int == flat_bonus(f.deep_view()));
        assert(-25 <= c <= 130);
    }
    let ghost lim = LEN_LIMIT as int;
    if hl == 0 {
        proof {
            assert(c * t <= 130 * lim && c * t >= -25 * lim && 50 * l <= 50 * lim && lim <= lim
                * lim) by (nonlinear_arith)
                requires
                    -25 <= c <= 130,
                    0 <= t < lim,
                    0 <= l < lim,
                    lim == LEN_LIMIT as int,
            ;
        }
        let num: i128 = -50 * l + c * t;
        (num, t)
    } else {
        proof {
            assert(0 <= t * t <= lim * lim && 0 <= l * h <= lim * lim && -25 * lim <= c * h <= 130
                * lim && (c * h) * t <= 130 * (lim * lim) && (c * h) * t >= -25 * (lim * lim) && 1
                <= h * t <= lim * lim) by (nonlinear_arith)
                requires
                    -25 <= c <= 130,
                    100 <= t < lim,
                    0 <= l < lim,
                    1 <= h < lim,
                    lim == LEN_LIMIT as int,
            ;
        }
        let num: i128 = 100 * (t * t) - 50 * (l * h) + (c * h) * t;
        (num, h * t)
    }
}

/// Extract the element most likely to hold the article body: the first
/// content selector whose first match has more than two hundred
/// characters of text, or, failing all selectors, the best-scoring
/// candidate of the heuristic phase.
pub fn extract_main_content(html: &str) -> (r: Option<String>)
    ensures
        r.deep_view() == extract_spec(html@),
{
    if !selector_is_valid("p") || !selector_is_valid("a") {
        return None;
    }
    let sels = content_selectors();
    let mut i: usize = 0;
    proof {
        assert(content_sels().skip(0) =~= content_sels());
    }
    while i < sels.len()
        invariant
            i <= sels.len(),
            sels.deep_view() == content_sels(),
            sel_ok("p"@) && sel_ok("a"@),
            sel_phase(html@, content_sels()) == sel_phase(html@, content_sels().skip(i as int)),
        decreases sels.len() - i,
    {
        proof {
            assert(content_sels().skip(i as int)[0] == content_sels()[i as int]);
            assert(content_sels()[i as int] == sels@[i as int]@);
            assert(content_sels().skip(i as int).skip(1) =~= content_sels().skip(i as int + 1));
        }
        if selector_is_valid(sels[i]) {
            let facts = select_facts(html, sels[i], "p", "a");
            if facts.len() > 0 {
                proof {
                    assert(facts.deep_view()[0] == facts@[0].deep_view());
                }
                let tl = facts[0].text.as_str().unicode_len();
                if tl > 200 {
                    let win = facts[0].html.clone();
                    return Some(win);
                }
            }
        }
        i += 1;
    }
    proof {
        assert(content_sels().skip(content_sels().len() as int) =~= Seq::<Seq<char>>::empty());
    }
    heuristic_extract(html)
}

/// The heuristic phase alone: score every candidate element and return
/// the best strictly positive scorer.
pub(crate) fn heuristic_extract(html: &str) -> (r: Option<String>)
    requires
        sel_ok("p"@),
        sel_ok("a"@),
    ensures
        r.deep_view() == heuristic_spec(html@),
{
    if !selector_is_valid("div, section, article, main") {
        return None;
    }
    let cands = select_facts(html, "div, section, article, main", "p", "a");
    let ghost cdv = cands.deep_view();
    let mut best: Option<String> = None;
    let mut bn: i128 = 0;
    let mut bd: i128 = 1;
    let mut k: usize = 0;
    let ghost lim = LEN_LIMIT as int;
    proof {
        assert(cdv.skip(0) =~= cdv);
    }
    while k < cands.len()
        invariant
            k <= cands.len(),
            cdv == cands.deep_view(),
            lim == LEN_LIMIT as int,
            1 <= bd as int <= (lim * lim),
            -75 * (lim * lim) <= bn as int,
            bn as int <= 230 * (lim * lim),
            pick_best(html@, cdv, 0, 1, Option::None) == pick_best(
                html@,
                cdv.skip(k as int),
                bn as int,
                bd as int,
                best.deep_view(),
            ),
        decreases cands.len() - k,
    {
        proof {
            assert(cdv.skip(k as int)[0] == cdv[k as int]);
            assert(cdv.skip(k as int).skip(1) =~= cdv.skip(k as int + 1));
            assert(cdv[k as int] == cands@[k as int].deep_view());
        }
        let f = &cands[k];
        let tl = f.text.as_str().unicode_len();
        if tl >= 100 {
            if !is_non_content_exec(html, &f.html) {
                let hl = f.html.as_str().unicode_len();
                let ll = link_text_len(&f.anchor_texts);
                if tl < LEN_LIMIT && hl < LEN_LIMIT && ll < LEN_LIMIT {
                    assert(cand_ok(html@, cdv[k as int]));
                    let (n, d) = score_candidate(f, tl, hl, ll);
                    proof {
                        assert({
                            let b = 230 * ((lim * lim) * (lim * lim));
                            -b <= n * bd <= b && -b <= bn * d <= b && b
                                < 0x4000_0000_0000_0000_0000_0000_0000_0000
                        }) by (nonlinear_arith)
                            requires
                                1 <= bd <= (lim * lim),
                                1 <= d <= (lim * lim),
                                -75 * (lim * lim) <= bn <= 230 * (lim * lim),
                                -75 * (lim * lim) <= n <= 230 * (lim * lim),
                                lim == 0x2000_0000,
                        ;
                    }
                    if n * bd > bn * d {
                        bn = n;
                        bd = d;
                        best = Some(f.html.clone());
                    }
                } else {
                    assert(!cand_ok(html@, cdv[k as int]));
                }
            }
        }
        k += 1;
    }
    proof {
        assert(cdv.skip(cands.len() as int) =~= Seq::<ElemFactsV>::empty());
    }
    best
}

/// Probe a caller-supplied ordered selector list, as [`sel_phase`] says.
pub(crate) fn probe_selectors(html: &str, sels: &Vec<String>) -> (r: Option<String>)
    requires
        sel_ok("p"@),
        sel_ok("a"@),
    ensures
        r.deep_view() == sel_phase(html@, sels.deep_view()),
{
    let ghost sdv = sels.deep_view();
    let mut i: usize = 0;
    proof {
        assert(sdv.skip(0) =~= sdv);
    }
    while i < sels.len()
        invariant
            i <= sels.len(),
            sdv == sels.deep_view(),
            sel_ok("p"@) && sel_ok("a"@),
            sel_phase(html@, sdv) == sel_phase(html@, sdv.skip(i as int)),
        decreases sels.len() - i,
    {
        proof {
            assert(sdv.skip(i as int)[0] == sdv[i as int]);
            assert(sdv[i as int] == sels@[i as int]@);
            assert(sdv.skip(i as int).skip(1) =~= sdv.skip(i as int + 1));
        }
        if selector_is_valid(sels[i].as_str()) {
            let facts = select_facts(html, sels[i].as_str(), "p", "a");
            if facts.len() > 0 {
                proof {
                    assert(facts.deep_view()[0] == facts@[0].deep_view());
                }
                let tl = facts[0].text.as_str().unicode_len();
                if tl > 200 {
                    let win = facts[0].html.clone();
                    return Some(win);
                }
            }
        }
        i += 1;
    }
    proof {
        assert(sdv.skip(sels.len() as int) =~= Seq::<Seq<char>>::empty());
    }
    None
}

/// What the pipeline's element choice comes to for a caller-supplied
/// selector list: the probe's winner, otherwise the heuristic's.
pub open spec fn article_pick(doc: Seq<char>, sels: Seq<Seq<char>>) -> Option<Seq<char>> {
    if !(sel_ok("p"@) && sel_ok("a"@)) {
        Option::None
    } else {
        match sel_phase(doc, sels) {
            Option::Some(h) => Option::Some(h),
            Option::None => heuristic_spec(doc),
        }
    }
}

/// What fallback extraction returns: the first match of the primary
/// selector, provided its visible text clears the two-hundred-character
/// floor, otherwise whatever [`extract_spec`] finds. The paragraph and
/// anchor sub-selectors must themselves parse for any element query to
/// be made at all.
pub open spec fn fallback_spec(doc: Seq<char>, sel: Seq<char>) -> Option<Seq<char>> {
    if !(sel_ok("p"@) && sel_ok("a"@)) {
        Option::None
    } else {
        match sel_phase(doc, seq![sel]) {
            Option::Some(h) => Option::Some(h),
            Option::None => extract_spec(doc),
        }
    }
}

/// Try the caller's primary selector first, with the selector phase's
/// text floor, and fall back to [`extract_main_content`] when it does
/// not parse, does not match, or matches too little text.
pub fn extract_content_with_fallback(html: &str, primary_selector: &str) -> (r: Option<String>)
    ensures
        r.deep_view() == fallback_spec(html@, primary_selector@),
{
    if !selector_is_valid("p") || !selector_is_valid("a") {
        return None;
    }
    let ghost probe = seq![primary_selector@];
    proof {
        assert(probe.len() == 1);
        assert(probe[0] == primary_selector@);
        assert(probe.skip(1) =~= Seq::<Seq<char>>::empty());
        assert(sel_phase(html@, Seq::<Seq<char>>::empty()) is None);
    }
    if selector_is_valid(primary_selector) {
        let facts = select_facts(html, primary_selector, "p", "a");
        proof {
            assert(facts.deep_view() == elem_facts(html@, primary_selector@, "p"@, "a"@));
        }
        if facts.len() > 0 {
            proof {
                assert(facts.deep_view()[0] == facts@[0].deep_view());
            }
            let tl = facts[0].text.as_str().unicode_len();
            if tl > 200 {
                let win = facts[0].html.clone();
                proof {
                    assert(elem_facts(html@, probe[0], "p"@, "a"@)[0].text.len() > 200);
                    assert(sel_phase(html@, probe) == Option::Some(facts.deep_view()[0].html));
                }
                return Some(win);
            }
            proof {
                assert(elem_facts(html@, probe[0], "p"@, "a"@)[0].text.len() <= 200);
                assert(sel_phase(html@, probe) is None);
            }
            return extract_main_content(html);
        }
        proof {
            assert(elem_facts(html@, probe[0], "p"@, "a"@).len() == 0);
            assert(sel_phase(html@, probe) is None);
        }
        return extract_main_content(html);
    }
    proof {
        assert(!sel_ok(probe[0]));
        assert(sel_phase(html@, probe) is None);
    }
    extract_main_content(html)
}

/// A document whose first `article` element carries more than five
/// hundred characters of visible text is always extracted: `article`
/// heads the probe list, five hundred clears the two-hundred floor, and
/// the heuristic is never consulted.
pub proof fn lemma_long_article_wins(doc: Seq<char>)
    ensures
        ({
            let facts = elem_facts(doc, "article"@, "p"@, "a"@);
            (sel_ok("p"@) && sel_ok("a"@) && sel_ok("article"@) && facts.len() > 0
                && facts[0].text.len() > 500) ==> extract_spec(doc) == Option::Some(facts[0].html)
        }),
{
    let facts = elem_facts(doc, "article"@, "p"@, "a"@);
    if sel_ok("p"@) && sel_ok("a"@) && sel_ok("article"@) && facts.len() > 0 && facts[0].text.len()
        > 500 {
        assert(content_sels()[0] == "article"@);
        assert(sel_phase(doc, content_sels()) == Option::Some(facts[0].html));
    }
}

/// A primary selector that parses and whose first match clears the text
/// floor is honored: the fallback returns that match and neither the
/// content-selector probe nor the heuristic phase plays a part.
pub proof fn lemma_primary_selector_wins(doc: Seq<char>, sel: Seq<char>)
    ensures
        ({
            let facts = elem_facts(doc, sel, "p"@, "a"@);
            (sel_ok("p"@) && sel_ok("a"@) && sel_ok(sel) && facts.len() > 0 && facts[0].text.len()
                > 200) ==> fallback_spec(doc, sel) == Option::Some(facts[0].html)
        }),
{
    let facts = elem_facts(doc, sel, "p"@, "a"@);
    if sel_ok("p"@) && sel_ok("a"@) && sel_ok(sel) && facts.len() > 0 && facts[0].text.len()
        > 200 {
        assert(seq![sel][0] == sel);
        assert(sel_phase(doc, seq![sel]) == Option::Some(facts[0].html));
    }
}

} // verus!
