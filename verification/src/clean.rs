//! Boilerplate removal: every element matching the base exclusion taxonomy
//! or a caller-supplied extra selector is collected as a serialized
//! fragment, fragments are deduplicated and sorted by serialized byte
//! length (longest first, so an outer element goes before a nested one),
//! each fragment is
//! textually erased from the document, and runs of blank lines are
//! collapsed.

use vstd::prelude::*;

use crate::bridge::{chars_of, string_from_chars};
use crate::dom::{doc_matches, sel_ok, select_html, selector_is_valid};
use crate::text::{byte_len, byte_len_chars, collapse_blank, collapse_blank_lines};
use crate::text::{erase_all, erase_all_occurrences, is_subseq};
use crate::text::{
    lemma_collapse_blank_subseq, lemma_erase_all_subseq, lemma_subseq_refl, lemma_subseq_trans,
};

verus! {

/// The fixed exclusion taxonomy: structural boilerplate tags, ARIA
/// landmark roles, advertising markers, social and share widgets, comment
/// sections, related-article blocks, scripts and styles, forms, and
/// hidden elements.
pub open spec fn base_exclude_sels() -> Seq<Seq<char>> {
    seq![
        "nav"@,
        "header"@,
        "footer"@,
        "aside"@,
        "[role='navigation']"@,
        "[role='complementary']"@,
        "[role='banner']"@,
        "[role='contentinfo']"@,
        ".ad"@,
        ".ads"@,
        ".advertisement"@,
        ".advert"@,
        "[class*='ad-']"@,
        "[class*='ads-']"@,
        "[id*='ad-']"@,
        "[id*='ads-']"@,
        ".social"@,
        ".social-share"@,
        ".share-buttons"@,
        ".sharing"@,
        ".comments"@,
        "#comments"@,
        ".comment-section"@,
        ".related"@,
        ".related-posts"@,
        ".recommended"@,
        ".suggestions"@,
        "script"@,
        "style"@,
        "noscript"@,
        "iframe"@,
        "form"@,
        "[hidden]"@,
        "[aria-hidden='true']"@,
        ".hidden"@,
        ".visually-hidden"@,
    ]
}

/// Executable form of [`base_exclude_sels`].
pub fn base_exclude_selectors() -> (r: Vec<&'static str>)
    ensures
        r.deep_view() == base_exclude_sels(),
{
    let r: Vec<&'static str> = vec![
        "nav",
        "header",
        "footer",
        "aside",
        "[role='navigation']",
        "[role='complementary']",
        "[role='banner']",
        "[role='contentinfo']",
        ".ad",
        ".ads",
        ".advertisement",
        ".advert",
        "[class*='ad-']",
        "[class*='ads-']",
        "[id*='ad-']",
        "[id*='ads-']",
        ".social",
        ".social-share",
        ".share-buttons",
        ".sharing",
        ".comments",
        "#comments",
        ".comment-section",
        ".related",
        ".related-posts",
        ".recommended",
        ".suggestions",
        "script",
        "style",
        "noscript",
        "iframe",
        "form",
        "[hidden]",
        "[aria-hidden='true']",
        ".hidden",
        ".visually-hidden",
    ];
    proof {
        assert(r.deep_view() =~= base_exclude_sels());
    }
    r
}

/// Append the fragments of `frags` to `acc` in order, skipping any
/// fragment already present.
pub open spec fn dedup_push(acc: Seq<Seq<char>>, frags: Seq<Seq<char>>) -> Seq<Seq<char>>
    decreases frags.len(),
{
    if frags.len() == 0 {
        acc
    } else {
        dedup_push(
            if acc.contains(frags[0]) {
                acc
            } else {
                acc.push(frags[0])
            },
            frags.skip(1),
        )
    }
}

/// The removal candidates: for each selector in order, every matching
/// element's serialized HTML, deduplicated; selectors that do not parse
/// are skipped.
pub open spec fn gather_frags(doc: Seq<char>, sels: Seq<Seq<char>>, acc: Seq<Seq<char>>) -> Seq<
    Seq<char>,
>
    decreases sels.len(),
{
    if sels.len() == 0 {
        acc
    } else {
        gather_frags(
            doc,
            sels.skip(1),
            if sel_ok(sels[0]) {
                dedup_push(acc, doc_matches(doc, sels[0]))
            } else {
                acc
            },
        )
    }
}

/// Insert `x` after every element whose serialized byte length is at
/// least `x`'s, so that equal lengths keep their first-seen order.
pub open spec fn insert_desc(v: Seq<Seq<char>>, x: Seq<char>) -> Seq<Seq<char>>
    decreases v.len(),
{
    if v.len() == 0 {
        seq![x]
    } else if byte_len(v[0]) >= byte_len(x) {
        seq![v[0]] + insert_desc(v.skip(1), x)
    } else {
        seq![x] + v
    }
}

/// Stable sort by serialized byte length, longest first.
pub open spec fn sort_desc(v: Seq<Seq<char>>) -> Seq<Seq<char>>
    decreases v.len(),
{
    if v.len() == 0 {
        v
    } else {
        insert_desc(sort_desc(v.drop_last()), v.last())
    }
}

/// Erase every occurrence of each fragment from `cur`, in order.
pub open spec fn erase_fold(cur: Seq<char>, frags: Seq<Seq<char>>) -> Seq<char>
    decreases frags.len(),
{
    if frags.len() == 0 {
        cur
    } else {
        erase_fold(erase_all(cur, frags[0]), frags.skip(1))
    }
}

/// What cleaning a document comes to: gather the removal candidates for
/// the base taxonomy followed by the extra selectors, sort them longest
/// first, erase them, and collapse blank-line runs.
pub open spec fn cleaned(doc: Seq<char>, extras: Seq<Seq<char>>) -> Seq<char> {
    collapse_blank(
        erase_fold(
            doc,
            sort_desc(gather_frags(doc, base_exclude_sels() + extras, Seq::empty())),
        ),
    )
}

/// Whether `v` holds a string whose characters equal `x`'s.
pub(crate) fn vec_contains_string(v: &Vec<String>, x: &String) -> (r: bool)
    ensures
        r == v.deep_view().contains(x@),
{
    let mut i: usize = 0;
    while i < v.len()
        invariant
            i <= v.len(),
            forall|j: int| 0 <= j < i ==> v.deep_view()[j] != x@,
        decreases v.len() - i,
    {
        if v[i].eq(x) {
            assert(v.deep_view()[i as int] == x@);
            return true;
        }
        i += 1;
    }
    false
}

/// Collect into `frags` the fragments matching `sel`, deduplicated.
fn gather_selector(doc: &str, sel: &str, frags: &mut Vec<String>)
    ensures
        final(frags).deep_view() == (if sel_ok(sel@) {
            dedup_push(old(frags).deep_view(), doc_matches(doc@, sel@))
        } else {
            old(frags).deep_view()
        }),
{
    if !selector_is_valid(sel) {
        return ;
    }
    let ms = select_html(doc, sel);
    let ghost mdv = ms.deep_view();
    let mut k: usize = 0;
    proof {
        assert(mdv.skip(0) =~= mdv);
    }
    while k < ms.len()
        invariant
            k <= ms.len(),
            mdv == ms.deep_view(),
            dedup_push(old(frags).deep_view(), mdv) == dedup_push(
                frags.deep_view(),
                mdv.skip(k as int),
            ),
        decreases ms.len() - k,
    {
        proof {
            assert(mdv.skip(k as int)[0] == mdv[k as int]);
            assert(mdv.skip(k as int).skip(1) =~= mdv.skip(k as int + 1));
        }
        if !vec_contains_string(frags, &ms[k]) {
            let ghost before = frags.deep_view();
            frags.push(ms[k].clone());
            proof {
                assert(frags.deep_view() =~= before.push(mdv[k as int]));
            }
        }
        k += 1;
    }
    proof {
        assert(mdv.skip(ms.len() as int) =~= Seq::<Seq<char>>::empty());
    }
}

proof fn lemma_insert_desc_at(v: Seq<Seq<char>>, x: Seq<char>, k: int)
    requires
        0 <= k <= v.len(),
        forall|j: int| 0 <= j < k ==> byte_len(#[trigger] v[j]) >= byte_len(x),
        k == v.len() || byte_len(v[k]) < byte_len(x),
    ensures
        insert_desc(v, x) == v.take(k) + seq![x] + v.skip(k),
    decreases v.len(),
{
    if v.len() == 0 {
        assert(insert_desc(v, x) =~= v.take(0) + seq![x] + v.skip(0));
    } else if k == 0 {
        assert(insert_desc(v, x) =~= v.take(0) + seq![x] + v.skip(0));
    } else {
        assert(byte_len(v[0]) >= byte_len(x));
        lemma_insert_desc_at(v.skip(1), x, k - 1);
        assert(v.skip(1).take(k - 1) =~= v.take(k).skip(1));
        assert(v.skip(1).skip(k - 1) =~= v.skip(k));
        assert(seq![v[0]] + (v.skip(1).take(k - 1) + seq![x] + v.skip(1).skip(k - 1)) =~= v.take(k)
            + seq![x] + v.skip(k));
    }
}

/// Serialized byte length of a string, as the sort key.
fn string_byte_len(s: &String) -> (r: u128)
    ensures
        r as int == byte_len(s@),
{
    let c = chars_of(s.as_str());
    byte_len_chars(&c)
}

/// Insert `x` into the length-sorted vector `sorted` behind every entry
/// whose byte length is at least `x`'s.
fn insert_by_len(sorted: &mut Vec<String>, x: String)
    ensures
        final(sorted).deep_view() == insert_desc(old(sorted).deep_view(), x@),
{
    let x_key: u128 = string_byte_len(&x);
    let mut k: usize = 0;
    while k < sorted.len() && string_byte_len(&sorted[k]) >= x_key
        invariant
            k <= sorted.len(),
            x_key as int == byte_len(x@),
            sorted == old(sorted),
            forall|j: int| 0 <= j < k ==> byte_len(#[trigger] sorted.deep_view()[j]) >= byte_len(
                x@,
            ),
        decreases sorted.len() - k,
    {
        assert(sorted.deep_view()[k as int] == sorted@[k as int]@);
        k += 1;
    }
    proof {
        if k < sorted.len() {
            assert(sorted.deep_view()[k as int] == sorted@[k as int]@);
            assert(byte_len(sorted.deep_view()[k as int]) < byte_len(x@));
        }
        lemma_insert_desc_at(sorted.deep_view(), x@, k as int);
    }
    let ghost before = sorted.deep_view();
    sorted.insert(k, x);
    proof {
        assert(sorted.deep_view() =~= before.take(k as int) + seq![x@] + before.skip(k as int));
    }
}

/// Remove every element matching the base exclusion taxonomy or one of
/// the `additional` site-specific selectors, then collapse runs of three
/// or more blank lines down to a single blank line.
pub fn clean_html_with_selectors(html: &str, additional: &Vec<String>) -> (r: String)
    ensures
        r@ == cleaned(html@, additional.deep_view()),
{
    let base = base_exclude_selectors();
    let ghost all = base_exclude_sels() + additional.deep_view();
    let mut frags: Vec<String> = Vec::new();
    let mut i: usize = 0;
    proof {
        assert(all.skip(0) =~= all);
        assert(frags.deep_view() =~= Seq::<Seq<char>>::empty());
    }
    while i < base.len()
        invariant
            i <= base.len(),
            base.deep_view() == base_exclude_sels(),
            all == base_exclude_sels() + additional.deep_view(),
            gather_frags(html@, all, Seq::empty()) == gather_frags(
                html@,
                all.skip(i as int),
                frags.deep_view(),
            ),
        decreases base.len() - i,
    {
        proof {
            assert(all.skip(i as int)[0] == base.deep_view()[i as int]);
            assert(base.deep_view()[i as int] == base@[i as int]@);
            assert(all.skip(i as int).skip(1) =~= all.skip(i as int + 1));
        }
        gather_selector(html, base[i], &mut frags);
        i += 1;
    }
    let mut j: usize = 0;
    while j < additional.len()
        invariant
            j <= additional.len(),
            all == base_exclude_sels() + additional.deep_view(),
            gather_frags(html@, all, Seq::empty()) == gather_frags(
                html@,
                all.skip(base_exclude_sels().len() + j as int),
                frags.deep_view(),
            ),
        decreases additional.len() - j,
    {
        let ghost pos = base_exclude_sels().len() + j as int;
        proof {
            assert(all.skip(pos)[0] == additional.deep_view()[j as int]);
            assert(additional.deep_view()[j as int] == additional@[j as int]@);
            assert(all.skip(pos).skip(1) =~= all.skip(pos + 1));
        }
        gather_selector(html, additional[j].as_str(), &mut frags);
        j += 1;
    }
    proof {
        assert(all.skip(all.len() as int) =~= Seq::<Seq<char>>::empty());
    }
    let ghost gathered = frags.deep_view();

    // sort the candidates, longest first
    let mut sorted: Vec<String> = Vec::new();
    let mut k: usize = 0;
    proof {
        assert(gathered.take(0) =~= Seq::<Seq<char>>::empty());
        assert(sorted.deep_view() =~= sort_desc(gathered.take(0)));
    }
    while k < frags.len()
        invariant
            k <= frags.len(),
            gathered == frags.deep_view(),
            sorted.deep_view() == sort_desc(gathered.take(k as int)),
        decreases frags.len() - k,
    {
        proof {
            assert(gathered.take(k as int + 1).drop_last() =~= gathered.take(k as int));
            assert(gathered.take(k as int + 1).last() == gathered[k as int]);
            assert(gathered[k as int] == frags@[k as int]@);
        }
        insert_by_len(&mut sorted, frags[k].clone());
        k += 1;
    }
    proof {
        assert(gathered.take(gathered.len() as int) =~= gathered);
    }
    let ghost order = sorted.deep_view();

    // erase each fragment from the document text
    let mut cur: Vec<char> = chars_of(html);
    let mut m: usize = 0;
    proof {
        assert(order.skip(0) =~= order);
    }
    while m < sorted.len()
        invariant
            m <= sorted.len(),
            order == sorted.deep_view(),
            erase_fold(html@, order) == erase_fold(cur@, order.skip(m as int)),
        decreases sorted.len() - m,
    {
        proof {
            assert(order.skip(m as int)[0] == order[m as int]);
            assert(order[m as int] == sorted@[m as int]@);
            assert(order.skip(m as int).skip(1) =~= order.skip(m as int + 1));
        }
        let fc = chars_of(sorted[m].as_str());
        cur = erase_all_occurrences(&cur, &fc);
        m += 1;
    }
    proof {
        assert(order.skip(order.len() as int) =~= Seq::<Seq<char>>::empty());
    }
    let collapsed = collapse_blank_lines(&cur);
    string_from_chars(&collapsed)
}

proof fn lemma_erase_fold_subseq(cur: Seq<char>, frags: Seq<Seq<char>>)
    ensures
        is_subseq(erase_fold(cur, frags), cur),
    decreases frags.len(),
{
    if frags.len() == 0 {
        lemma_subseq_refl(cur);
    } else {
        lemma_erase_all_subseq(cur, frags[0]);
        lemma_erase_fold_subseq(erase_all(cur, frags[0]), frags.skip(1));
        lemma_subseq_trans(erase_fold(cur, frags), erase_all(cur, frags[0]), cur);
    }
}

/// Cleaning only deletes: the cleaned output is a subsequence of the
/// input document, so every surviving character — in particular the text
/// beside a removed element — stands unchanged and in its original
/// order. Which characters go (the gathered fragment occurrences and the
/// collapsed newline runs) is fixed by [`cleaned`]'s definition.
pub proof fn lemma_clean_only_deletes(doc: Seq<char>, extras: Seq<Seq<char>>)
    ensures
        is_subseq(cleaned(doc, extras), doc),
{
    let frags = sort_desc(gather_frags(doc, base_exclude_sels() + extras, Seq::empty()));
    lemma_erase_fold_subseq(doc, frags);
    lemma_collapse_blank_subseq(erase_fold(doc, frags));
    lemma_subseq_trans(cleaned(doc, extras), erase_fold(doc, frags), doc);
}

/// Re-cleaning already-cleaned output is a no-op whenever the cleaned
/// text no longer holds an element matching an exclusion rule — the
/// second pass then gathers no removal candidates, and collapsing
/// blank-line runs a second time changes nothing. (Removal is by exact
/// serialized fragment, so erasure can in principle splice together text
/// that matches a rule again; on such output a second pass still removes
/// it, and this guarantee does not apply.)
pub proof fn lemma_clean_idempotent_when_settled(doc: Seq<char>, extras: Seq<Seq<char>>)
    ensures
        gather_frags(cleaned(doc, extras), base_exclude_sels() + extras, Seq::empty())
            == Seq::<Seq<char>>::empty() ==> cleaned(cleaned(doc, extras), extras) == cleaned(
            doc,
            extras,
        ),
{
    let c = cleaned(doc, extras);
    if gather_frags(c, base_exclude_sels() + extras, Seq::empty()) == Seq::<Seq<char>>::empty() {
        assert(sort_desc(Seq::<Seq<char>>::empty()) == Seq::<Seq<char>>::empty());
        assert(erase_fold(c, Seq::<Seq<char>>::empty()) == c);
        let x = erase_fold(
            doc,
            sort_desc(gather_frags(doc, base_exclude_sels() + extras, Seq::empty())),
        );
        assert(c == collapse_blank(x));
        crate::text::lemma_collapse_blank_idempotent(x);
    }
}

/// Remove every element matching the base exclusion taxonomy and collapse
/// blank-line runs.
pub fn clean_html(html: &str) -> (r: String)
    ensures
        r@ == cleaned(html@, Seq::empty()),
{
    let extras: Vec<String> = Vec::new();
    proof {
        assert(extras.deep_view() =~= Seq::<Seq<char>>::empty());
    }
    clean_html_with_selectors(html, &extras)
}

} // verus!
