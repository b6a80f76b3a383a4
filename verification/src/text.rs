//! Character-level text surgery shared by the cleaner and the pipeline:
//! erasing every occurrence of a fragment, collapsing blank-line runs,
//! squashing whitespace runs, and unwrapping CDATA sections.

use vstd::prelude::*;

verus! {

/// The whitespace class used by all normalization passes: ASCII whitespace
/// plus the Unicode `White_Space` code points.
pub open spec fn is_ws(c: char) -> bool {
    c == ' ' || c == '\t' || c == '\n' || c == '\u{b}' || c == '\u{c}' || c == '\r'
        || c == '\u{85}' || c == '\u{a0}' || c == '\u{1680}'
        || c == '\u{2000}' || c == '\u{2001}' || c == '\u{2002}' || c == '\u{2003}'
        || c == '\u{2004}' || c == '\u{2005}' || c == '\u{2006}' || c == '\u{2007}'
        || c == '\u{2008}' || c == '\u{2009}' || c == '\u{200a}'
        || c == '\u{2028}' || c == '\u{2029}' || c == '\u{202f}' || c == '\u{205f}'
        || c == '\u{3000}'
}

/// Executable test for [`is_ws`].
pub fn is_space(c: char) -> (r: bool)
    ensures
        r == is_ws(c),
{
    c == ' ' || c == '\t' || c == '\n' || c == '\u{b}' || c == '\u{c}' || c == '\r'
        || c == '\u{85}' || c == '\u{a0}' || c == '\u{1680}'
        || c == '\u{2000}' || c == '\u{2001}' || c == '\u{2002}' || c == '\u{2003}'
        || c == '\u{2004}' || c == '\u{2005}' || c == '\u{2006}' || c == '\u{2007}'
        || c == '\u{2008}' || c == '\u{2009}' || c == '\u{200a}'
        || c == '\u{2028}' || c == '\u{2029}' || c == '\u{202f}' || c == '\u{205f}'
        || c == '\u{3000}'
}

/// `pat` occurs in `s` starting at position `i`.
pub open spec fn match_at(s: Seq<char>, pat: Seq<char>, i: int) -> bool {
    &&& 0 <= i
    &&& i + pat.len() <= s.len()
    &&& s.subrange(i, i + pat.len() as int) == pat
}

/// `pat` occurs somewhere in `s`.
pub open spec fn has_sub(s: Seq<char>, pat: Seq<char>) -> bool {
    exists|i: int| match_at(s, pat, i)
}

/// Executable test for [`match_at`].
pub fn match_at_exec(s: &Vec<char>, pat: &Vec<char>, i: usize) -> (r: bool)
    requires
        i <= s.len(),
    ensures
        r == match_at(s@, pat@, i as int),
{
    if pat.len() > s.len() - i {
        assert(!match_at(s@, pat@, i as int));
        return false;
    }
    let mut k: usize = 0;
    while k < pat.len()
        invariant
            i + pat.len() <= s.len(),
            k <= pat.len(),
            forall|m: int| 0 <= m < k ==> s@[i + m] == pat@[m],
        decreases pat.len() - k,
    {
        if s[i + k] != pat[k] {
            assert(s@.subrange(i as int, i + pat@.len() as int)[k as int] != pat@[k as int]);
            return false;
        }
        k += 1;
    }
    assert(s@.subrange(i as int, i + pat@.len() as int) =~= pat@);
    true
}

/// Executable test for [`has_sub`].
pub fn contains_sub(s: &Vec<char>, pat: &Vec<char>) -> (r: bool)
    ensures
        r == has_sub(s@, pat@),
{
    if pat.len() == 0 {
        assert(s@.subrange(0, 0) =~= pat@);
        assert(match_at(s@, pat@, 0));
        return true;
    }
    if pat.len() > s.len() {
        assert(forall|i: int| !match_at(s@, pat@, i));
        return false;
    }
    let last: usize = s.len() - pat.len();
    let mut i: usize = 0;
    while i <= last
        invariant
            pat.len() >= 1,
            pat.len() <= s.len(),
            last == s.len() - pat.len(),
            i <= last + 1,
            forall|j: int| 0 <= j < i ==> !match_at(s@, pat@, j),
        decreases last + 1 - i,
    {
        if match_at_exec(s, pat, i) {
            return true;
        }
        i += 1;
    }
    assert(forall|j: int| match_at(s@, pat@, j) ==> 0 <= j <= last);
    false
}

/// One left-to-right pass removing every non-overlapping occurrence of
/// `pat` from `s`; text spliced together by a removal is not rescanned.
pub open spec fn erase_all(s: Seq<char>, pat: Seq<char>) -> Seq<char>
    decreases s.len(),
{
    if pat.len() == 0 {
        s
    } else if s.len() < pat.len() {
        s
    } else if match_at(s, pat, 0) {
        erase_all(s.skip(pat.len() as int), pat)
    } else {
        s.take(1) + erase_all(s.skip(1), pat)
    }
}

proof fn lemma_erase_step_match(s: Seq<char>, pat: Seq<char>, i: int)
    requires
        pat.len() >= 1,
        match_at(s, pat, i),
    ensures
        erase_all(s.skip(i), pat) == erase_all(s.skip(i + pat.len()), pat),
{
    assert(s.skip(i).subrange(0, pat.len() as int) =~= s.subrange(i, i + pat.len() as int));
    assert(match_at(s.skip(i), pat, 0));
    assert(s.skip(i).skip(pat.len() as int) =~= s.skip(i + pat.len()));
}

proof fn lemma_erase_step_copy(s: Seq<char>, pat: Seq<char>, i: int)
    requires
        pat.len() >= 1,
        0 <= i < s.len(),
        !match_at(s, pat, i),
    ensures
        erase_all(s.skip(i), pat) == seq![s[i]] + erase_all(s.skip(i + 1), pat),
{
    let t = s.skip(i);
    assert(t.skip(1) =~= s.skip(i + 1));
    if t.len() < pat.len() {
        assert(erase_all(t, pat) == t);
        assert(erase_all(s.skip(i + 1), pat) == s.skip(i + 1));
        assert(t =~= seq![s[i]] + s.skip(i + 1));
    } else {
        if match_at(t, pat, 0) {
            assert(s.subrange(i, i + pat.len() as int) =~= t.subrange(0, pat.len() as int));
            assert(false);
        }
        assert(t.take(1) =~= seq![s[i]]);
    }
}

/// Executable form of [`erase_all`].
pub fn erase_all_occurrences(s: &Vec<char>, pat: &Vec<char>) -> (r: Vec<char>)
    ensures
        r@ == erase_all(s@, pat@),
{
    if pat.len() == 0 {
        let mut out: Vec<char> = Vec::new();
        let mut i: usize = 0;
        while i < s.len()
            invariant
                i <= s.len(),
                out@ =~= s@.take(i as int),
            decreases s.len() - i,
        {
            out.push(s[i]);
            i += 1;
        }
        assert(out@ =~= s@);
        return out;
    }
    let mut out: Vec<char> = Vec::new();
    let mut i: usize = 0;
    proof {
        assert(s@.skip(0) =~= s@);
        assert(Seq::<char>::empty() + erase_all(s@, pat@) =~= erase_all(s@, pat@));
    }
    while i < s.len()
        invariant
            i <= s.len(),
            pat.len() >= 1,
            out@ + erase_all(s@.skip(i as int), pat@) == erase_all(s@, pat@),
        decreases s.len() - i,
    {
        if match_at_exec(s, pat, i) {
            proof {
                lemma_erase_step_match(s@, pat@, i as int);
            }
            i += pat.len();
        } else {
            proof {
                lemma_erase_step_copy(s@, pat@, i as int);
                assert(out@ + (seq![s@[i as int]] + erase_all(s@.skip(i as int + 1), pat@))
                    =~= (out@ + seq![s@[i as int]]) + erase_all(s@.skip(i as int + 1), pat@));
            }
            out.push(s[i]);
            i += 1;
        }
    }
    proof {
        assert(s@.skip(i as int) =~= Seq::<char>::empty());
        assert(erase_all(Seq::<char>::empty(), pat@) == Seq::<char>::empty());
        assert(out@ + Seq::<char>::empty() =~= out@);
    }
    out
}

/// End of the maximal whitespace run that starts at position `i`.
pub open spec fn run_end(s: Seq<char>, i: int) -> int
    decreases s.len() - i when 0 <= i <= s.len()
{
    if i < s.len() && is_ws(s[i]) {
        run_end(s, i + 1)
    } else {
        i
    }
}

/// Number of newline characters in `s[i..j)`.
pub open spec fn nl_between(s: Seq<char>, i: int, j: int) -> int
    decreases j - i when i <= j
{
    if j <= i {
        0
    } else {
        nl_between(s, i, j - 1) + if s[j - 1] == '\n' { 1int } else { 0int }
    }
}

/// One past the last newline in `s[i..j)`, or `i` if there is none.
pub open spec fn last_nl_end(s: Seq<char>, i: int, j: int) -> int
    decreases j - i when i <= j
{
    if j <= i {
        i
    } else if s[j - 1] == '\n' {
        j
    } else {
        last_nl_end(s, i, j - 1)
    }
}

proof fn lemma_run_end(s: Seq<char>, i: int)
    requires
        0 <= i <= s.len(),
    ensures
        i <= run_end(s, i) <= s.len(),
        forall|k: int| i <= k < run_end(s, i) ==> is_ws(s[k]),
        run_end(s, i) == s.len() || !is_ws(s[run_end(s, i)]),
    decreases s.len() - i,
{
    if i < s.len() && is_ws(s[i]) {
        lemma_run_end(s, i + 1);
    }
}

proof fn lemma_last_nl_end(s: Seq<char>, i: int, j: int)
    requires
        i <= j,
    ensures
        i <= last_nl_end(s, i, j) <= j,
        nl_between(s, i, j) >= 1 ==> last_nl_end(s, i, j) > i,
        nl_between(s, i, j) >= 0,
    decreases j - i,
{
    if j > i {
        lemma_last_nl_end(s, i, j - 1);
    }
}

/// Collapse, left to right, every whitespace run that begins at a newline
/// and contains three or more newlines down to one blank line; the run's
/// trailing non-newline whitespace is kept.
pub open spec fn collapse_runs(s: Seq<char>, i: int) -> Seq<char>
    decreases s.len() - i when 0 <= i <= s.len() via collapse_runs_dec
{
    if i >= s.len() {
        Seq::empty()
    } else if s[i] == '\n' && nl_between(s, i, run_end(s, i)) >= 3 {
        seq!['\n', '\n'] + collapse_runs(s, last_nl_end(s, i, run_end(s, i)))
    } else {
        seq![s[i]] + collapse_runs(s, i + 1)
    }
}

#[via_fn]
proof fn collapse_runs_dec(s: Seq<char>, i: int) {
    if 0 <= i <= s.len() && i < s.len() {
        lemma_run_end(s, i);
        lemma_last_nl_end(s, i, run_end(s, i));
    }
}

/// Collapse runs of three or more blank lines down to a single blank line.
pub open spec fn collapse_blank(s: Seq<char>) -> Seq<char> {
    collapse_runs(s, 0)
}

/// Executable form of [`collapse_blank`].
pub fn collapse_blank_lines(s: &Vec<char>) -> (r: Vec<char>)
    ensures
        r@ == collapse_blank(s@),
{
    let mut out: Vec<char> = Vec::new();
    let mut i: usize = 0;
    proof {
        assert(Seq::<char>::empty() + collapse_runs(s@, 0) =~= collapse_runs(s@, 0));
    }
    while i < s.len()
        invariant
            i <= s.len(),
            out@ + collapse_runs(s@, i as int) == collapse_runs(s@, 0),
        decreases s.len() - i,
    {
        if s[i] == '\n' {
            let mut j: usize = i;
            let mut cnt: usize = 0;
            let mut last_end: usize = i;
            while j < s.len() && is_space(s[j])
                invariant
                    i <= j <= s.len(),
                    run_end(s@, i as int) == run_end(s@, j as int),
                    cnt == nl_between(s@, i as int, j as int),
                    cnt <= j - i,
                    last_end == last_nl_end(s@, i as int, j as int),
                    i <= last_end <= j,
                decreases s.len() - j,
            {
                if s[j] == '\n' {
                    cnt += 1;
                    last_end = j + 1;
                }
                j += 1;
            }
            proof {
                assert(run_end(s@, j as int) == j as int);
            }
            if cnt >= 3 {
                out.push('\n');
                out.push('\n');
                proof {
                    assert(collapse_runs(s@, i as int) == seq!['\n', '\n'] + collapse_runs(
                        s@,
                        last_end as int,
                    ));
                    assert(out@ + collapse_runs(s@, last_end as int) =~= (out@.drop_last().drop_last())
                        + (seq!['\n', '\n'] + collapse_runs(s@, last_end as int)));
                    lemma_last_nl_end(s@, i as int, j as int);
                }
                i = last_end;
            } else {
                proof {
                    assert(collapse_runs(s@, i as int) == seq![s@[i as int]] + collapse_runs(
                        s@,
                        i as int + 1,
                    ));
                    assert(out@.push(s@[i as int]) + collapse_runs(s@, i as int + 1) =~= out@ + (
                    seq![s@[i as int]] + collapse_runs(s@, i as int + 1)));
                }
                out.push(s[i]);
                i += 1;
            }
        } else {
            proof {
                assert(collapse_runs(s@, i as int) == seq![s@[i as int]] + collapse_runs(
                    s@,
                    i as int + 1,
                ));
                assert(out@.push(s@[i as int]) + collapse_runs(s@, i as int + 1) =~= out@ + (
                seq![s@[i as int]] + collapse_runs(s@, i as int + 1)));
            }
            out.push(s[i]);
            i += 1;
        }
    }
    proof {
        assert(out@ + Seq::<char>::empty() =~= out@);
    }
    out
}

/// Replace, left to right, every run of two or more whitespace characters
/// with a single newline; a lone whitespace character is kept as it is.
pub open spec fn squash_runs(s: Seq<char>, i: int) -> Seq<char>
    decreases s.len() - i when 0 <= i <= s.len() via squash_runs_dec
{
    if i >= s.len() {
        Seq::empty()
    } else if is_ws(s[i]) && i + 1 < s.len() && is_ws(s[i + 1]) {
        seq!['\n'] + squash_runs(s, run_end(s, i))
    } else {
        seq![s[i]] + squash_runs(s, i + 1)
    }
}

#[via_fn]
proof fn squash_runs_dec(s: Seq<char>, i: int) {
    if 0 <= i <= s.len() && i < s.len() {
        lemma_run_end(s, i);
        if is_ws(s[i]) && i + 1 < s.len() && is_ws(s[i + 1]) {
            assert(run_end(s, i) == run_end(s, i + 1));
            assert(run_end(s, i + 1) == run_end(s, i + 2));
            lemma_run_end(s, i + 2);
        }
    }
}

/// Squash every whitespace run of length two or more to one newline.
pub open spec fn squash_ws(s: Seq<char>) -> Seq<char> {
    squash_runs(s, 0)
}

/// Executable form of [`squash_ws`].
pub fn squash_whitespace(s: &Vec<char>) -> (r: Vec<char>)
    ensures
        r@ == squash_ws(s@),
{
    let mut out: Vec<char> = Vec::new();
    let mut i: usize = 0;
    proof {
        assert(Seq::<char>::empty() + squash_runs(s@, 0) =~= squash_runs(s@, 0));
    }
    while i < s.len()
        invariant
            i <= s.len(),
            out@ + squash_runs(s@, i as int) == squash_runs(s@, 0),
        decreases s.len() - i,
    {
        if is_space(s[i]) && i + 1 < s.len() && is_space(s[i + 1]) {
            let mut j: usize = i;
            while j < s.len() && is_space(s[j])
                invariant
                    i <= j <= s.len(),
                    run_end(s@, i as int) == run_end(s@, j as int),
                decreases s.len() - j,
            {
                j += 1;
            }
            proof {
                assert(run_end(s@, j as int) == j as int);
                assert(squash_runs(s@, i as int) == seq!['\n'] + squash_runs(s@, j as int));
                assert(out@.push('\n') + squash_runs(s@, j as int) =~= out@ + (seq!['\n']
                    + squash_runs(s@, j as int)));
            }
            out.push('\n');
            i = j;
        } else {
            proof {
                assert(squash_runs(s@, i as int) == seq![s@[i as int]] + squash_runs(
                    s@,
                    i as int + 1,
                ));
                assert(out@.push(s@[i as int]) + squash_runs(s@, i as int + 1) =~= out@ + (
                seq![s@[i as int]] + squash_runs(s@, i as int + 1)));
            }
            out.push(s[i]);
            i += 1;
        }
    }
    proof {
        assert(out@ + Seq::<char>::empty() =~= out@);
    }
    out
}

/// No whitespace run that starts at a newline holds three or more
/// newlines.
pub open spec fn no_triple(s: Seq<char>) -> bool {
    forall|i: int|
        0 <= i < s.len() && (#[trigger] s[i]) == '\n' ==> nl_between(s, i, run_end(s, i)) < 3
}

proof fn lemma_nl_nonneg(s: Seq<char>, i: int, j: int)
    requires
        i <= j,
    ensures
        nl_between(s, i, j) >= 0,
    decreases j - i,
{
    if j > i {
        lemma_nl_nonneg(s, i, j - 1);
    }
}

proof fn lemma_nl_add(s: Seq<char>, p: int, q: int, r: int)
    requires
        p <= q <= r,
    ensures
        nl_between(s, p, r) == nl_between(s, p, q) + nl_between(s, q, r),
    decreases r - q,
{
    if r > q {
        lemma_nl_add(s, p, q, r - 1);
    }
}

proof fn lemma_nl_zero(s: Seq<char>, p: int, q: int)
    requires
        p <= q,
        forall|k: int| p <= k < q ==> (#[trigger] s[k]) != '\n',
    ensures
        nl_between(s, p, q) == 0,
    decreases q - p,
{
    if q > p {
        lemma_nl_zero(s, p, q - 1);
    }
}

proof fn lemma_nl_window(s1: Seq<char>, p1: int, s2: Seq<char>, p2: int, n: int)
    requires
        n >= 0,
        forall|k: int| 0 <= k < n ==> s1[p1 + k] == #[trigger] s2[p2 + k],
    ensures
        nl_between(s1, p1, p1 + n) == nl_between(s2, p2, p2 + n),
    decreases n,
{
    if n > 0 {
        lemma_nl_window(s1, p1, s2, p2, n - 1);
        assert(s1[p1 + (n - 1)] == s2[p2 + (n - 1)]);
    }
}

proof fn lemma_run_end_is(s: Seq<char>, p: int, m: int)
    requires
        0 <= p <= m <= s.len(),
        forall|k: int| p <= k < m ==> is_ws(#[trigger] s[k]),
        m == s.len() || !is_ws(s[m]),
    ensures
        run_end(s, p) == m,
    decreases m - p,
{
    if p < m {
        lemma_run_end_is(s, p + 1, m);
    }
}

proof fn lemma_run_same(s: Seq<char>, j: int, k: int)
    requires
        0 <= j <= k <= run_end(s, j),
        j <= s.len(),
    ensures
        run_end(s, k) == run_end(s, j),
    decreases k - j,
{
    lemma_run_end(s, j);
    if j < k {
        lemma_run_same(s, j + 1, k);
    }
}

proof fn lemma_nl_after_last(s: Seq<char>, i: int, j: int)
    requires
        i <= j,
    ensures
        last_nl_end(s, i, j) <= j,
        nl_between(s, last_nl_end(s, i, j), j) == 0,
    decreases j - i,
{
    lemma_last_nl_end(s, i, j);
    if j > i {
        if s[j - 1] == '\n' {
        } else {
            lemma_nl_after_last(s, i, j - 1);
            lemma_nl_add(s, last_nl_end(s, i, j - 1), j - 1, j);
        }
    }
}

proof fn lemma_run_end_concat(u: Seq<char>, v: Seq<char>, p: int)
    requires
        0 <= p <= v.len(),
    ensures
        run_end(u + v, u.len() + p) == u.len() + run_end(v, p),
    decreases v.len() - p,
{
    assert((u + v).len() == u.len() + v.len());
    if p < v.len() {
        assert((u + v)[u.len() + p] == v[p]);
        if is_ws(v[p]) {
            lemma_run_end_concat(u, v, p + 1);
        }
    }
}

proof fn lemma_nl_concat(u: Seq<char>, v: Seq<char>, p: int, q: int)
    requires
        0 <= p <= q <= v.len(),
    ensures
        nl_between(u + v, u.len() + p, u.len() + q) == nl_between(v, p, q),
    decreases q - p,
{
    if q > p {
        assert((u + v)[u.len() + q - 1] == v[q - 1]);
        lemma_nl_concat(u, v, p, q - 1);
    }
}

/// Collapsing walks through a whitespace run with fewer than three
/// newlines untouched.
proof fn lemma_collapse_through_run(s: Seq<char>, j: int)
    requires
        0 <= j <= s.len(),
        nl_between(s, j, run_end(s, j)) < 3,
    ensures
        collapse_runs(s, j) == s.subrange(j, run_end(s, j)) + collapse_runs(s, run_end(s, j)),
    decreases run_end(s, j) - j,
{
    lemma_run_end(s, j);
    if j == run_end(s, j) {
        assert(s.subrange(j, j) =~= Seq::<char>::empty());
        assert(Seq::<char>::empty() + collapse_runs(s, j) =~= collapse_runs(s, j));
    } else {
        // s[j] is whitespace; whether or not it is a newline, the run
        // count rules the emit branch out
        lemma_nl_nonneg(s, j, j + 1);
        lemma_nl_nonneg(s, j + 1, run_end(s, j));
        lemma_nl_add(s, j, j + 1, run_end(s, j));
        assert(collapse_runs(s, j) == seq![s[j]] + collapse_runs(s, j + 1));
        lemma_run_same(s, j, j + 1);
        lemma_collapse_through_run(s, j + 1);
        assert(seq![s[j]] + (s.subrange(j + 1, run_end(s, j)) + collapse_runs(s, run_end(s, j)))
            =~= s.subrange(j, run_end(s, j)) + collapse_runs(s, run_end(s, j)));
    }
}

/// The collapsed text never holds a whitespace run with three or more
/// newlines starting at a newline.
proof fn lemma_collapse_no_triple(s: Seq<char>, i: int)
    requires
        0 <= i <= s.len(),
    ensures
        no_triple(collapse_runs(s, i)),
    decreases s.len() - i,
{
    if i >= s.len() {
    } else {
        let e = run_end(s, i);
        lemma_run_end(s, i);
        if s[i] == '\n' && nl_between(s, i, e) >= 3 {
            let u = seq!['\n', '\n'];
            let nxt = last_nl_end(s, i, e);
            lemma_last_nl_end(s, i, e);
            let rest = collapse_runs(s, nxt);
            let out = collapse_runs(s, i);
            assert(out == u + rest);
            lemma_collapse_no_triple(s, nxt);
            // the tail of the run past its last newline is newline-free
            // whitespace, and collapsing copies it through
            lemma_nl_after_last(s, i, e);
            lemma_run_same(s, i, nxt);
            lemma_collapse_through_run(s, nxt);
            lemma_run_end(s, nxt);
            let w = e - nxt;
            let tail = collapse_runs(s, e);
            assert(rest == s.subrange(nxt, e) + tail);
            assert(forall|k: int| 0 <= k < w ==> rest[k] == s[nxt + k]);
            // the collapsed tail starts at a non-whitespace character
            assert(tail.len() > 0 ==> !is_ws(tail[0])) by {
                if e < s.len() {
                    assert(collapse_runs(s, e) == seq![s[e]] + collapse_runs(s, e + 1));
                }
            }
            let m = 2 + w;
            assert(out.len() == 2 + w + tail.len());
            assert(forall|k: int| 0 <= k < m ==> is_ws(#[trigger] out[k]));
            if m < out.len() {
                assert(out[m] == rest[w]);
                assert(rest[w] == tail[0]);
                assert(!is_ws(out[m]));
            }
            assert forall|p: int|
                0 <= p < out.len() && (#[trigger] out[p]) == '\n' implies nl_between(
                out,
                p,
                run_end(out, p),
            ) < 3 by {
                if p < 2 {
                    lemma_run_end_is(out, p, m);
                    lemma_nl_add(out, p, 2, m);
                    lemma_nl_window(out, 2, s, nxt, w);
                    assert(nl_between(out, 2, 2 + w) == nl_between(s, nxt, nxt + w));
                    assert(nl_between(out, 0, 0) == 0);
                    assert(nl_between(out, 1, 1) == 0);
                    assert(nl_between(out, 0, 1) == 1);
                    assert(nl_between(out, 1, 2) == 1);
                    if p == 0 {
                        lemma_nl_add(out, 0, 1, 2);
                        assert(nl_between(out, 0, 2) == 2);
                    }
                } else {
                    assert(out[p] == rest[p - 2]);
                    lemma_run_end(rest, p - 2);
                    lemma_run_end_concat(u, rest, p - 2);
                    lemma_nl_concat(u, rest, p - 2, run_end(rest, p - 2));
                }
            }
        } else {
            let u = seq![s[i]];
            let rest = collapse_runs(s, i + 1);
            let out = collapse_runs(s, i);
            assert(out == u + rest);
            lemma_collapse_no_triple(s, i + 1);
            assert forall|p: int|
                0 <= p < out.len() && (#[trigger] out[p]) == '\n' implies nl_between(
                out,
                p,
                run_end(out, p),
            ) < 3 by {
                if p >= 1 {
                    assert(out[p] == rest[p - 1]);
                    lemma_run_end(rest, p - 1);
                    lemma_run_end_concat(u, rest, p - 1);
                    lemma_nl_concat(u, rest, p - 1, run_end(rest, p - 1));
                } else {
                    // s[i] is a newline whose run holds fewer than three
                    // newlines; collapsing copies the run through, so the
                    // same run reappears in the output
                    assert(out[0] == s[i]);
                    assert(s[i] == '\n');
                    assert(nl_between(s, i, e) < 3);
                    lemma_nl_add(s, i, i + 1, e);
                    assert(nl_between(s, i, i) == 0);
                    assert(nl_between(s, i, i + 1) == 1);
                    lemma_run_same(s, i, i + 1);
                    assert(nl_between(s, i + 1, run_end(s, i + 1)) < 3);
                    lemma_collapse_through_run(s, i + 1);
                    lemma_run_end(s, i + 1);
                    let w = e - (i + 1);
                    let tail = collapse_runs(s, e);
                    assert(rest == s.subrange(i + 1, e) + tail);
                    assert(forall|k: int| 0 <= k < w ==> rest[k] == s[i + 1 + k]);
                    assert(tail.len() > 0 ==> !is_ws(tail[0])) by {
                        if e < s.len() {
                            assert(collapse_runs(s, e) == seq![s[e]] + collapse_runs(s, e + 1));
                        }
                    }
                    let m = 1 + w;
                    assert(out.len() == 1 + w + tail.len());
                    assert(forall|k: int| 0 <= k < m ==> is_ws(#[trigger] out[k]));
                    if m < out.len() {
                        assert(out[m] == rest[w]);
                        assert(rest[w] == tail[0]);
                        assert(!is_ws(out[m]));
                    }
                    lemma_run_end_is(out, 0, m);
                    lemma_nl_add(out, 0, 1, m);
                    assert(nl_between(out, 0, 0) == 0);
                    assert(nl_between(out, 0, 1) == 1);
                    lemma_nl_window(out, 1, s, i + 1, w);
                    assert(nl_between(out, 1, 1 + w) == nl_between(s, i + 1, i + 1 + w));
                }
            }
        }
    }
}

/// A text with no three-newline run is a fixed point of collapsing.
proof fn lemma_collapse_fixed(s: Seq<char>, i: int)
    requires
        0 <= i <= s.len(),
        no_triple(s),
    ensures
        collapse_runs(s, i) == s.skip(i),
    decreases s.len() - i,
{
    if i >= s.len() {
        assert(s.skip(i) =~= Seq::<char>::empty());
    } else {
        assert(s[i] == '\n' ==> nl_between(s, i, run_end(s, i)) < 3);
        lemma_collapse_fixed(s, i + 1);
        assert(seq![s[i]] + s.skip(i + 1) =~= s.skip(i));
    }
}

/// Collapsing runs of blank lines is idempotent: the first pass leaves no
/// whitespace run with three or more newlines, so a second pass is the
/// identity.
pub proof fn lemma_collapse_blank_idempotent(s: Seq<char>)
    ensures
        collapse_blank(collapse_blank(s)) == collapse_blank(s),
{
    lemma_collapse_no_triple(s, 0);
    lemma_collapse_fixed(collapse_blank(s), 0);
    assert(collapse_blank(s).skip(0) =~= collapse_blank(s));
}

/// `a` can be obtained from `b` by deleting characters: whatever of `b`
/// survives stands unchanged and in its original order.
pub open spec fn is_subseq(a: Seq<char>, b: Seq<char>) -> bool
    decreases b.len(),
{
    if a.len() == 0 {
        true
    } else if b.len() == 0 {
        false
    } else {
        (a[0] == b[0] && is_subseq(a.skip(1), b.skip(1))) || is_subseq(a, b.skip(1))
    }
}

pub proof fn lemma_subseq_refl(s: Seq<char>)
    ensures
        is_subseq(s, s),
    decreases s.len(),
{
    if s.len() > 0 {
        lemma_subseq_refl(s.skip(1));
    }
}

pub proof fn lemma_subseq_trans(a: Seq<char>, b: Seq<char>, c: Seq<char>)
    requires
        is_subseq(a, b),
        is_subseq(b, c),
    ensures
        is_subseq(a, c),
    decreases c.len(),
{
    if a.len() == 0 {
    } else {
        if b[0] == c[0] && is_subseq(b.skip(1), c.skip(1)) {
            if a[0] == b[0] && is_subseq(a.skip(1), b.skip(1)) {
                lemma_subseq_trans(a.skip(1), b.skip(1), c.skip(1));
            } else {
                lemma_subseq_trans(a, b.skip(1), c.skip(1));
            }
        } else {
            lemma_subseq_trans(a, b, c.skip(1));
        }
    }
}

proof fn lemma_subseq_cons(a: Seq<char>, b: Seq<char>, c: char)
    requires
        is_subseq(a, b),
    ensures
        is_subseq(seq![c] + a, seq![c] + b),
{
    assert((seq![c] + a)[0] == c);
    assert((seq![c] + b)[0] == c);
    assert((seq![c] + a).skip(1) =~= a);
    assert((seq![c] + b).skip(1) =~= b);
}

proof fn lemma_subseq_skip(s: Seq<char>, j: int, k: int)
    requires
        0 <= j <= k <= s.len(),
    ensures
        is_subseq(s.skip(k), s.skip(j)),
    decreases k - j,
{
    if j == k {
        lemma_subseq_refl(s.skip(k));
    } else {
        lemma_subseq_skip(s, j + 1, k);
        // one extra leading character may simply be deleted
        assert(s.skip(j).skip(1) =~= s.skip(j + 1));
        if s.skip(k).len() > 0 {
            assert(is_subseq(s.skip(k), s.skip(j)));
        }
    }
}

proof fn lemma_nl_exists(s: Seq<char>, j: int, k: int)
    requires
        j <= k,
        nl_between(s, j, k) >= 1,
    ensures
        exists|q: int| j <= q < k && (#[trigger] s[q]) == '\n',
    decreases k - j,
{
    if s[k - 1] == '\n' {
        assert(j <= k - 1 < k && s[k - 1] == '\n');
    } else {
        lemma_nl_exists(s, j, k - 1);
    }
}

pub proof fn lemma_erase_all_subseq(s: Seq<char>, pat: Seq<char>)
    ensures
        is_subseq(erase_all(s, pat), s),
    decreases s.len(),
{
    if pat.len() == 0 || s.len() < pat.len() {
        lemma_subseq_refl(s);
    } else if match_at(s, pat, 0) {
        lemma_erase_all_subseq(s.skip(pat.len() as int), pat);
        lemma_subseq_skip(s, 0, pat.len() as int);
        assert(s.skip(0) =~= s);
        lemma_subseq_trans(erase_all(s.skip(pat.len() as int), pat), s.skip(pat.len() as int), s);
    } else {
        lemma_erase_all_subseq(s.skip(1), pat);
        lemma_subseq_cons(erase_all(s.skip(1), pat), s.skip(1), s[0]);
        assert(s.take(1) =~= seq![s[0]]);
        assert(seq![s[0]] + s.skip(1) =~= s);
    }
}

proof fn lemma_collapse_subseq(s: Seq<char>, i: int)
    requires
        0 <= i <= s.len(),
    ensures
        is_subseq(collapse_runs(s, i), s.skip(i)),
    decreases s.len() - i,
{
    if i >= s.len() {
        assert(collapse_runs(s, i).len() == 0);
    } else {
        let e = run_end(s, i);
        lemma_run_end(s, i);
        if s[i] == '\n' && nl_between(s, i, e) >= 3 {
            let nxt = last_nl_end(s, i, e);
            lemma_last_nl_end(s, i, e);
            lemma_nl_after_last(s, i, e);
            lemma_nl_add(s, i, nxt, e);
            lemma_nl_add(s, i, i + 1, e);
            assert(nl_between(s, i, i) == 0);
            assert(nl_between(s, i, i + 1) == 1);
            lemma_nl_add(s, i + 1, nxt, e);
            // at least two more newlines follow the one at i, all before nxt
            assert(nl_between(s, i + 1, nxt) >= 2);
            lemma_nl_exists(s, i + 1, nxt);
            let q = choose|q: int| i + 1 <= q < nxt && (#[trigger] s[q]) == '\n';
            let rest = collapse_runs(s, nxt);
            lemma_collapse_subseq(s, nxt);
            // the second emitted newline is matched at position q
            lemma_subseq_skip(s, q + 1, nxt);
            lemma_subseq_trans(rest, s.skip(nxt), s.skip(q + 1));
            assert(s.skip(q).skip(1) =~= s.skip(q + 1));
            assert((seq!['\n'] + rest)[0] == '\n');
            assert(s.skip(q)[0] == '\n');
            assert((seq!['\n'] + rest).skip(1) =~= rest);
            assert(is_subseq(seq!['\n'] + rest, s.skip(q)));
            // the first emitted newline is matched at position i
            lemma_subseq_skip(s, i + 1, q);
            lemma_subseq_trans(seq!['\n'] + rest, s.skip(q), s.skip(i + 1));
            let out = collapse_runs(s, i);
            assert(out == seq!['\n', '\n'] + rest);
            assert(out[0] == '\n');
            assert(s.skip(i)[0] == '\n');
            assert(out.skip(1) =~= seq!['\n'] + rest);
            assert(s.skip(i).skip(1) =~= s.skip(i + 1));
            assert(is_subseq(out, s.skip(i)));
        } else {
            lemma_collapse_subseq(s, i + 1);
            lemma_subseq_cons(collapse_runs(s, i + 1), s.skip(i + 1), s[i]);
            assert(seq![s[i]] + s.skip(i + 1) =~= s.skip(i));
        }
    }
}

/// Collapsing blank-line runs only deletes characters.
pub proof fn lemma_collapse_blank_subseq(s: Seq<char>)
    ensures
        is_subseq(collapse_blank(s), s),
{
    lemma_collapse_subseq(s, 0);
    assert(s.skip(0) =~= s);
}

/// UTF-8 encoded length of one character.
pub open spec fn utf8_len(c: char) -> int {
    if (c as u32) < 0x80 {
        1
    } else if (c as u32) < 0x800 {
        2
    } else if (c as u32) < 0x10000 {
        3
    } else {
        4
    }
}

/// Byte length of a text under UTF-8: what `String::len` reports for the
/// string holding these characters.
pub open spec fn byte_len(s: Seq<char>) -> int
    decreases s.len(),
{
    if s.len() == 0 {
        0
    } else {
        utf8_len(s[0]) + byte_len(s.skip(1))
    }
}

proof fn lemma_byte_len_push(s: Seq<char>, c: char)
    ensures
        byte_len(s.push(c)) == byte_len(s) + utf8_len(c),
    decreases s.len(),
{
    assert(s.push(c).len() == s.len() + 1);
    assert(byte_len(s.push(c)) == utf8_len(s.push(c)[0]) + byte_len(s.push(c).skip(1)));
    if s.len() == 0 {
        assert(s.push(c)[0] == c);
        assert(s.push(c).skip(1) =~= Seq::<char>::empty());
        assert(byte_len(Seq::<char>::empty()) == 0);
    } else {
        assert(s.push(c)[0] == s[0]);
        assert(s.push(c).skip(1) =~= s.skip(1).push(c));
        lemma_byte_len_push(s.skip(1), c);
    }
}

/// Executable form of [`byte_len`].
pub fn byte_len_chars(v: &Vec<char>) -> (r: u128)
    ensures
        r as int == byte_len(v@),
{
    let mut total: u128 = 0;
    let mut i: usize = 0;
    proof {
        assert(v@.take(0) =~= Seq::<char>::empty());
    }
    while i < v.len()
        invariant
            i <= v.len(),
            total as int == byte_len(v@.take(i as int)),
            total as int <= 4 * (i as int),
        decreases v.len() - i,
    {
        let c = v[i];
        let l: u128 = if (c as u32) < 0x80 {
            1
        } else if (c as u32) < 0x800 {
            2
        } else if (c as u32) < 0x10000 {
            3
        } else {
            4
        };
        proof {
            assert(l as int == utf8_len(v@[i as int]));
            assert(v@.take(i as int).push(v@[i as int]) =~= v@.take(i as int + 1));
            lemma_byte_len_push(v@.take(i as int), v@[i as int]);
        }
        total += l;
        i += 1;
    }
    proof {
        assert(v@.take(v.len() as int) =~= v@);
    }
    total
}

/// Copy of a character vector.
pub fn clone_chars(s: &Vec<char>) -> (r: Vec<char>)
    ensures
        r@ == s@,
{
    let mut out: Vec<char> = Vec::new();
    let mut i: usize = 0;
    while i < s.len()
        invariant
            i <= s.len(),
            out@ =~= s@.take(i as int),
        decreases s.len() - i,
    {
        out.push(s[i]);
        i += 1;
    }
    assert(out@ =~= s@);
    out
}

/// The opening marker of a CDATA section.
pub open spec fn cdata_open() -> Seq<char> {
    seq!['<', '!', '[', 'C', 'D', 'A', 'T', 'A', '[']
}

/// The closing marker of a CDATA section.
pub open spec fn cdata_close() -> Seq<char> {
    seq![']', ']', '>']
}

/// Lazy scan for the closing marker of a CDATA body whose first character
/// sits at `j - 1`: each consumed body character must not be a newline, and
/// the first closing marker ends the body. Returns the marker's position,
/// or `-1` if a newline or the end of `s` comes first.
pub open spec fn scan_close(s: Seq<char>, j: int) -> int
    decreases s.len() + 2 - j when 1 <= j <= s.len() + 1
{
    if j - 1 >= s.len() {
        -1
    } else if s[j - 1] == '\n' {
        -1
    } else if match_at(s, cdata_close(), j) {
        j
    } else {
        scan_close(s, j + 1)
    }
}

/// Leftmost position at which a complete CDATA section (opening marker,
/// non-empty newline-free body, closing marker) begins, or `-1`.
pub open spec fn find_open(s: Seq<char>, p: int) -> int
    decreases s.len() - p when 0 <= p <= s.len()
{
    if p + 9 > s.len() {
        -1
    } else if match_at(s, cdata_open(), p) && scan_close(s, p + 10) >= 0 {
        p
    } else {
        find_open(s, p + 1)
    }
}

proof fn lemma_scan_close(s: Seq<char>, j: int)
    requires
        1 <= j <= s.len() + 1,
        scan_close(s, j) >= 0,
    ensures
        j <= scan_close(s, j),
        scan_close(s, j) + 3 <= s.len(),
    decreases s.len() + 2 - j,
{
    if j - 1 >= s.len() {
    } else if s[j - 1] == '\n' {
    } else if match_at(s, cdata_close(), j) {
    } else {
        lemma_scan_close(s, j + 1);
    }
}

proof fn lemma_find_open(s: Seq<char>, p: int)
    requires
        0 <= p <= s.len(),
        find_open(s, p) >= 0,
    ensures
        p <= find_open(s, p),
        find_open(s, p) + 9 <= s.len(),
        scan_close(s, find_open(s, p) + 10) >= find_open(s, p) + 10,
        scan_close(s, find_open(s, p) + 10) + 3 <= s.len(),
    decreases s.len() - p,
{
    if p + 9 > s.len() {
    } else if match_at(s, cdata_open(), p) && scan_close(s, p + 10) >= 0 {
        lemma_scan_close(s, p + 10);
    } else {
        lemma_find_open(s, p + 1);
    }
}

/// If `s` contains a CDATA section, the whole value is replaced by the body
/// of the leftmost one, closed as early as possible; otherwise `s` is kept.
pub open spec fn cdata_unwrap(s: Seq<char>) -> Seq<char> {
    let p = find_open(s, 0);
    if p >= 0 {
        s.subrange(p + 9, scan_close(s, p + 10))
    } else {
        s
    }
}

/// Executable form of [`cdata_unwrap`].
pub fn cdata_unwrap_chars(s: &Vec<char>) -> (r: Vec<char>)
    ensures
        r@ == cdata_unwrap(s@),
{
    let open: Vec<char> = vec!['<', '!', '[', 'C', 'D', 'A', 'T', 'A', '['];
    let close: Vec<char> = vec![']', ']', '>'];
    proof {
        assert(open@ =~= cdata_open());
        assert(close@ =~= cdata_close());
    }
    let mut p: usize = 0;
    while s.len() - p >= 9
        invariant
            p <= s.len(),
            open@ == cdata_open(),
            close@ == cdata_close(),
            find_open(s@, 0) == find_open(s@, p as int),
        decreases s.len() - p,
    {
        if match_at_exec(s, &open, p) {
            // scan the section body one character at a time; `b` is the
            // position of the next body character to consume
            let mut b: usize = p + 9;
            while b < s.len() && s[b] != '\n' && !match_at_exec(s, &close, b + 1)
                invariant
                    p + 9 <= b <= s.len(),
                    close@ == cdata_close(),
                    scan_close(s@, p as int + 10) == scan_close(s@, b as int + 1),
                decreases s.len() - b,
            {
                b += 1;
            }
            if b < s.len() && s[b] != '\n' {
                // the closing marker was found right after position b
                assert(scan_close(s@, p as int + 10) == b as int + 1);
                assert(find_open(s@, p as int) == p as int);
                let e: usize = b + 1;
                let mut out: Vec<char> = Vec::new();
                let mut k: usize = p + 9;
                while k < e
                    invariant
                        p + 9 <= k <= e <= s.len(),
                        out@ =~= s@.subrange(p as int + 9, k as int),
                    decreases e - k,
                {
                    out.push(s[k]);
                    k += 1;
                }
                assert(out@ =~= cdata_unwrap(s@));
                return out;
            }
            proof {
                assert(scan_close(s@, p as int + 10) == -1);
                assert(find_open(s@, p as int) == find_open(s@, p as int + 1));
            }
            p += 1;
        } else {
            proof {
                assert(find_open(s@, p as int) == find_open(s@, p as int + 1));
            }
            p += 1;
        }
    }
    proof {
        assert(find_open(s@, p as int) == -1);
    }
    clone_chars(s)
}

} // verus!
