//! Content scoring for the heuristic extraction phase. A candidate's
//! score is the real number
//! `textDensity*100 - linkDensity*50 + min(paragraphs,10)*5 + bonuses`,
//! held exactly as a rational number: a numerator and a positive
//! denominator over the element's text and HTML lengths. Comparisons
//! between candidates cross-multiply, so no rounding ever happens.

use vstd::prelude::*;

use crate::bridge::lower_of;
use crate::dom::ElemFactsV;
use crate::text::has_sub;
use vstd::string::StrSliceExecFns;

verus! {

/// Ceiling on the character counts that scoring accepts; candidates with
/// a longer text, serialization or anchor-text total are discarded so
/// that cross-multiplied score comparisons fit in 128-bit arithmetic.
pub const LEN_LIMIT: usize = 0x2000_0000;

/// Total length of a sequence of texts.
pub open spec fn sum_lens(xs: Seq<Seq<char>>) -> int
    decreases xs.len(),
{
    if xs.len() == 0 {
        0
    } else {
        xs[0].len() + sum_lens(xs.skip(1))
    }
}

proof fn lemma_sum_lens_nonneg(xs: Seq<Seq<char>>)
    ensures
        sum_lens(xs) >= 0,
    decreases xs.len(),
{
    if xs.len() > 0 {
        lemma_sum_lens_nonneg(xs.skip(1));
    }
}

proof fn lemma_sum_lens_push(xs: Seq<Seq<char>>, x: Seq<char>)
    ensures
        sum_lens(xs.push(x)) == sum_lens(xs) + x.len(),
    decreases xs.len(),
{
    assert(xs.push(x).len() == xs.len() + 1);
    assert(sum_lens(xs.push(x)) == xs.push(x)[0].len() + sum_lens(xs.push(x).skip(1)));
    if xs.len() == 0 {
        assert(xs.push(x)[0] == x);
        assert(xs.push(x).skip(1) =~= Seq::<Seq<char>>::empty());
        assert(sum_lens(Seq::<Seq<char>>::empty()) == 0);
    } else {
        assert(xs.push(x)[0] == xs[0]);
        assert(xs.push(x).skip(1) =~= xs.skip(1).push(x));
        lemma_sum_lens_push(xs.skip(1), x);
    }
}

proof fn lemma_sum_lens_concat(a: Seq<Seq<char>>, b: Seq<Seq<char>>)
    ensures
        sum_lens(a + b) == sum_lens(a) + sum_lens(b),
    decreases b.len(),
{
    if b.len() == 0 {
        assert(a + b =~= a);
    } else {
        assert((a + b).drop_last() =~= a + b.drop_last());
        lemma_sum_lens_concat(a, b.drop_last());
        lemma_sum_lens_push(a + b.drop_last(), b.last());
        assert((a + b.drop_last()).push(b.last()) =~= a + b);
        lemma_sum_lens_push(b.drop_last(), b.last());
        assert(b.drop_last().push(b.last()) =~= b);
    }
}

/// Total character count of the anchor texts, saturated at [`LEN_LIMIT`].
pub fn link_text_len(xs: &Vec<String>) -> (r: usize)
    ensures
        sum_lens(xs.deep_view()) < LEN_LIMIT ==> r == sum_lens(xs.deep_view()),
        sum_lens(xs.deep_view()) >= LEN_LIMIT ==> r == LEN_LIMIT,
{
    let ghost dv = xs.deep_view();
    let mut total: usize = 0;
    let mut i: usize = 0;
    proof {
        assert(dv.take(0) =~= Seq::<Seq<char>>::empty());
    }
    while i < xs.len()
        invariant
            i <= xs.len(),
            dv == xs.deep_view(),
            total == sum_lens(dv.take(i as int)),
            total < LEN_LIMIT,
        decreases xs.len() - i,
    {
        let l = xs[i].as_str().unicode_len();
        proof {
            assert(dv.take(i as int).push(dv[i as int]) =~= dv.take(i as int + 1));
            lemma_sum_lens_push(dv.take(i as int), dv[i as int]);
            assert(dv[i as int] == xs@[i as int]@);
        }
        if l >= LEN_LIMIT - total {
            proof {
                assert(sum_lens(dv.take(i as int + 1)) >= LEN_LIMIT);
                assert(dv =~= dv.take(i as int + 1) + dv.skip(i as int + 1));
                lemma_sum_lens_concat(dv.take(i as int + 1), dv.skip(i as int + 1));
                lemma_sum_lens_nonneg(dv.skip(i as int + 1));
            }
            return LEN_LIMIT;
        }
        total += l;
        i += 1;
    }
    proof {
        assert(dv.take(xs.len() as int) =~= dv);
    }
    total
}

/// Adjustment from the `class` attribute: +25 when it names article-like
/// content, -25 when it names sidebar-like furniture, case-insensitively.
pub open spec fn class_adjust(cls: Option<Seq<char>>) -> int {
    match cls {
        Option::None => 0,
        Option::Some(c) => {
            let lc = lower_of(c);
            (if has_sub(lc, "article"@) || has_sub(lc, "content"@) || has_sub(lc, "post"@) {
                25int
            } else {
                0int
            }) + (if has_sub(lc, "sidebar"@) || has_sub(lc, "comment"@) || has_sub(lc, "nav"@) {
                -25int
            } else {
                0int
            })
        },
    }
}

/// Adjustment from the `id` attribute: +25 when it names article-like
/// content, case-insensitively.
pub open spec fn id_adjust(id: Option<Seq<char>>) -> int {
    match id {
        Option::None => 0,
        Option::Some(c) => {
            let lc = lower_of(c);
            if has_sub(lc, "article"@) || has_sub(lc, "content"@) || has_sub(lc, "main"@) {
                25int
            } else {
                0int
            }
        },
    }
}

/// The integer part of the score: paragraph credit (five points per
/// paragraph, capped at ten paragraphs), length bonuses at five hundred
/// and one thousand characters of text, and the attribute adjustments.
pub open spec fn flat_bonus(f: ElemFactsV) -> int {
    5 * (if f.para_count >= 10 {
        10int
    } else {
        f.para_count
    }) + (if f.text.len() > 500 {
        20int
    } else {
        0int
    }) + (if f.text.len() > 1000 {
        10int
    } else {
        0int
    }) + class_adjust(f.class_attr) + id_adjust(f.id_attr)
}

/// Numerator of the score over [`score_den`]: with text length `T`,
/// HTML length `H`, anchor-text length `L` and flat bonus `C`, the score
/// `100*T/H - 50*L/T + C` becomes `(100*T*T - 50*L*H + C*H*T) / (H*T)`;
/// when `H` is zero the text density term is taken as zero rather than
/// dividing by zero, and the denominator degenerates to `T`.
pub open spec fn score_num(f: ElemFactsV) -> int {
    let t = f.text.len() as int;
    let h = f.html.len() as int;
    let l = sum_lens(f.anchor_texts);
    let c = flat_bonus(f);
    if h == 0 {
        -50 * l + c * t
    } else {
        100 * (t * t) - 50 * (l * h) + (c * h) * t
    }
}

/// Denominator of the score; positive whenever the element has text.
pub open spec fn score_den(f: ElemFactsV) -> int {
    let t = f.text.len() as int;
    let h = f.html.len() as int;
    if h == 0 {
        t
    } else {
        h * t
    }
}

/// Scoring is monotonically non-decreasing in the paragraph count with
/// all other factors fixed, and flat above ten paragraphs: the two
/// candidates share a denominator, so their scores order as their
/// numerators do.
pub proof fn lemma_score_paragraph_monotone(f1: ElemFactsV, f2: ElemFactsV)
    requires
        f2 == (ElemFactsV { para_count: f2.para_count, ..f1 }),
        0 <= f1.para_count <= f2.para_count,
    ensures
        score_den(f1) == score_den(f2),
        score_num(f1) <= score_num(f2),
        f1.para_count >= 10 ==> score_num(f1) == score_num(f2),
{
    let t = f1.text.len() as int;
    let h = f1.html.len() as int;
    let m1 = if f1.para_count >= 10 {
        10int
    } else {
        f1.para_count
    };
    let m2 = if f2.para_count >= 10 {
        10int
    } else {
        f2.para_count
    };
    assert(m1 <= m2);
    let c1 = flat_bonus(f1);
    let c2 = flat_bonus(f2);
    assert(c2 - c1 == 5 * (m2 - m1));
    if h == 0 {
        assert(c1 * t <= c2 * t) by (nonlinear_arith)
            requires
                c1 <= c2,
                t >= 0,
        ;
    } else {
        assert((c1 * h) * t <= (c2 * h) * t) by (nonlinear_arith)
            requires
                c1 <= c2,
                h >= 0,
                t >= 0,
        ;
    }
}

} // verus!
