//! The string-similarity scorer: a recursive longest-common-substring
//! matching scheme. The score of two strings is the ratio
//! `2 * matched / (len1 + len2)`, where `matched` counts the characters of
//! the longest common contiguous substring plus, recursively, the matched
//! characters of the parts strictly to its left and to its right.
//!
//! Scores are kept exact, as the pair `(matched, total)` standing for the
//! ratio `2 * matched / total`; comparisons cross-multiply, so no rounding
//! ever enters a decision. The scheme is not symmetric in its two arguments:
//! when several maximal common substrings tie, the scan picks the first one
//! in row-major order, and the two orders of the same pair of strings can
//! disagree.

use vstd::prelude::*;
use crate::text::{hyp_type_of, get_hyp_type, str_chars, sub_chars};

verus! {

/// Length of the longest common suffix of `s1.take(i)` and `s2.take(j)`:
/// the dynamic-programming table entry at `(i, j)`.
pub open spec fn lcsuf(s1: Seq<char>, s2: Seq<char>, i: int, j: int) -> int
    decreases i + j,
{
    if i <= 0 || j <= 0 || i > s1.len() || j > s2.len() {
        0
    } else if s1[i - 1] == s2[j - 1] {
        lcsuf(s1, s2, i - 1, j - 1) + 1
    } else {
        0
    }
}

/// The table value considered when the scan visits cell `(i, j)`.
pub open spec fn cell_val(s1: Seq<char>, s2: Seq<char>, i: int, j: int) -> int {
    lcsuf(s1, s2, i + 1, j + 1)
}

/// Running maximum of `cell_val` over the cells scanned strictly before
/// `(i, j)` in row-major order.
pub open spec fn scan_max(s1: Seq<char>, s2: Seq<char>, i: int, j: int) -> int
    decreases i, j,
{
    if j > 0 {
        if cell_val(s1, s2, i, j - 1) > scan_max(s1, s2, i, j - 1) {
            cell_val(s1, s2, i, j - 1)
        } else {
            scan_max(s1, s2, i, j - 1)
        }
    } else if i > 0 {
        scan_max(s1, s2, i - 1, s2.len() as int)
    } else {
        0
    }
}

/// End positions (one past the last matched character, in each string) of
/// the first cell attaining the running maximum; `(len1, len2)` while the
/// maximum is still zero.
pub open spec fn scan_end(s1: Seq<char>, s2: Seq<char>, i: int, j: int) -> (int, int)
    decreases i, j,
{
    if j > 0 {
        if cell_val(s1, s2, i, j - 1) > scan_max(s1, s2, i, j - 1) {
            (i + 1, j)
        } else {
            scan_end(s1, s2, i, j - 1)
        }
    } else if i > 0 {
        scan_end(s1, s2, i - 1, s2.len() as int)
    } else {
        (s1.len() as int, s2.len() as int)
    }
}

/// Length of the longest common substring chosen by the full scan.
pub open spec fn total_max(s1: Seq<char>, s2: Seq<char>) -> int {
    scan_max(s1, s2, s1.len() as int, 0)
}

/// End positions of the chosen longest common substring.
pub open spec fn total_end(s1: Seq<char>, s2: Seq<char>) -> (int, int) {
    scan_end(s1, s2, s1.len() as int, 0)
}

pub proof fn lemma_lcsuf_bound(s1: Seq<char>, s2: Seq<char>, i: int, j: int)
    requires
        0 <= i,
        0 <= j,
    ensures
        0 <= lcsuf(s1, s2, i, j),
        lcsuf(s1, s2, i, j) <= i,
        lcsuf(s1, s2, i, j) <= j,
    decreases i + j,
{
    if !(i <= 0 || j <= 0 || i > s1.len() || j > s2.len()) && s1[i - 1] == s2[j - 1] {
        lemma_lcsuf_bound(s1, s2, i - 1, j - 1);
    }
}

proof fn lemma_scan_bounds(s1: Seq<char>, s2: Seq<char>, i: int, j: int)
    requires
        0 <= i <= s1.len(),
        0 <= j <= s2.len(),
        j > 0 ==> i < s1.len(),
    ensures
        0 <= scan_max(s1, s2, i, j),
        scan_max(s1, s2, i, j) > 0 ==> {
            let e = scan_end(s1, s2, i, j);
            1 <= e.0 <= s1.len() && 1 <= e.1 <= s2.len() && scan_max(s1, s2, i, j) <= e.0
                && scan_max(s1, s2, i, j) <= e.1
        },
        scan_max(s1, s2, i, j) == 0 ==> scan_end(s1, s2, i, j) == (
            s1.len() as int,
            s2.len() as int,
        ),
    decreases i, j,
{
    if j > 0 {
        lemma_scan_bounds(s1, s2, i, j - 1);
        lemma_lcsuf_bound(s1, s2, i + 1, j);
    } else if i > 0 {
        lemma_scan_bounds(s1, s2, i - 1, s2.len() as int);
    }
}

/// The total number of matched characters of the recursive scheme: the
/// chosen longest common substring, plus the matches of the parts strictly
/// to its left and to its right in each string.
pub open spec fn matched_count(s1: Seq<char>, s2: Seq<char>) -> int
    decreases s1.len() + s2.len(),
    via matched_count_dec
{
    let m = total_max(s1, s2);
    let e = total_end(s1, s2);
    if m <= 0 {
        0
    } else {
        matched_count(s1.take(e.0 - m), s2.take(e.1 - m)) + m + matched_count(
            s1.skip(e.0),
            s2.skip(e.1),
        )
    }
}

#[via_fn]
proof fn matched_count_dec(s1: Seq<char>, s2: Seq<char>) {
    lemma_scan_bounds(s1, s2, s1.len() as int, 0);
}

/// Law: the matched-character count never exceeds either length, so the
/// similarity score `2 * matched / (len1 + len2)` always lies in `[0, 1]`.
pub proof fn lemma_matched_le(s1: Seq<char>, s2: Seq<char>)
    ensures
        0 <= matched_count(s1, s2),
        matched_count(s1, s2) <= s1.len(),
        matched_count(s1, s2) <= s2.len(),
    decreases s1.len() + s2.len(),
{
    lemma_scan_bounds(s1, s2, s1.len() as int, 0);
    let m = total_max(s1, s2);
    let e = total_end(s1, s2);
    if m > 0 {
        lemma_matched_le(s1.take(e.0 - m), s2.take(e.1 - m));
        lemma_matched_le(s1.skip(e.0), s2.skip(e.1));
    }
}

proof fn lemma_lcsuf_diag(s: Seq<char>, i: int)
    requires
        0 <= i <= s.len(),
    ensures
        lcsuf(s, s, i, i) == i,
    decreases i,
{
    if i > 0 {
        lemma_lcsuf_diag(s, i - 1);
    }
}

proof fn lemma_scan_max_ge(s1: Seq<char>, s2: Seq<char>, i: int, j: int, a: int, b: int)
    requires
        0 <= a < s1.len(),
        0 <= b < s2.len(),
        0 <= j <= s2.len(),
        a < i || (a == i && b < j),
    ensures
        scan_max(s1, s2, i, j) >= cell_val(s1, s2, a, b),
    decreases i, j,
{
    if j > 0 {
        if a == i && b == j - 1 {
        } else {
            lemma_scan_max_ge(s1, s2, i, j - 1, a, b);
        }
    } else {
        lemma_scan_max_ge(s1, s2, i - 1, s2.len() as int, a, b);
    }
}

/// Law: a string matches itself completely, so its self-similarity score is
/// exactly one.
pub proof fn lemma_matched_self(s: Seq<char>)
    ensures
        matched_count(s, s) == s.len(),
{
    let n = s.len() as int;
    if n == 0 {
        assert(matched_count(s, s) == 0);
    } else {
        lemma_lcsuf_diag(s, n);
        lemma_scan_max_ge(s, s, n, 0, n - 1, n - 1);
        lemma_scan_bounds(s, s, n, 0);
        let m = total_max(s, s);
        let e = total_end(s, s);
        assert(cell_val(s, s, n - 1, n - 1) == n);
        assert(m == n);
        assert(e.0 == n && e.1 == n);
        let empty = Seq::<char>::empty();
        assert(s.take(e.0 - m) =~= empty);
        assert(s.skip(e.0) =~= empty);
        assert(total_max(empty, empty) == 0);
        assert(matched_count(empty, empty) == 0);
    }
}

proof fn lemma_scan_zero_cols(s1: Seq<char>, s2: Seq<char>, i: int)
    requires
        s2.len() == 0,
        0 <= i,
    ensures
        scan_max(s1, s2, i, 0) == 0,
        scan_end(s1, s2, i, 0) == (s1.len() as int, 0int),
    decreases i,
{
    if i > 0 {
        lemma_scan_zero_cols(s1, s2, i - 1);
    }
}

/// Law: matching against the empty string matches nothing, so the
/// similarity of a nonempty string to the empty string is exactly zero.
pub proof fn lemma_matched_empty(s: Seq<char>)
    ensures
        matched_count(s, Seq::<char>::empty()) == 0,
        matched_count(Seq::<char>::empty(), s) == 0,
{
    let empty = Seq::<char>::empty();
    lemma_scan_zero_cols(s, empty, s.len() as int);
    assert(total_max(s, empty) == 0);
    assert(total_max(empty, s) == scan_max(empty, s, 0, 0));
    assert(matched_count(empty, s) == 0);
}

/// Runs the longest-common-substring scan over the whole table, returning
/// the maximal length and the end positions of the first cell attaining it.
#[verifier::loop_isolation(false)]
fn lcs_scan(s1: &Vec<char>, s2: &Vec<char>) -> (r: (usize, usize, usize))
    requires
        s1@.len() < usize::MAX,
        s2@.len() < usize::MAX,
    ensures
        r.0 as int == total_max(s1@, s2@),
        (r.1 as int, r.2 as int) == total_end(s1@, s2@),
{
    let n1 = s1.len();
    let n2 = s2.len();
    let mut prev: Vec<usize> = vec![0; n2 + 1];
    let mut maxv: usize = 0;
    let mut e1: usize = n1;
    let mut e2: usize = n2;
    let mut i: usize = 0;
    while i < n1
        invariant
            i <= n1 == s1@.len(),
            n2 == s2@.len(),
            prev@.len() == n2 + 1,
            forall|jj: int| 0 <= jj <= n2 ==> prev@[jj] == lcsuf(s1@, s2@, i as int, jj),
            maxv as int == scan_max(s1@, s2@, i as int, 0),
            (e1 as int, e2 as int) == scan_end(s1@, s2@, i as int, 0),
        decreases n1 - i,
    {
        let mut curr: Vec<usize> = Vec::new();
        curr.push(0);
        let mut j: usize = 0;
        while j < n2
            invariant
                j <= n2,
                curr@.len() == j + 1,
                forall|jj: int| 0 <= jj <= j ==> curr@[jj] == lcsuf(s1@, s2@, i as int + 1, jj),
                maxv as int == scan_max(s1@, s2@, i as int, j as int),
                (e1 as int, e2 as int) == scan_end(s1@, s2@, i as int, j as int),
            decreases n2 - j,
        {
            let v: usize;
            if s1[i] == s2[j] {
                proof {
                    lemma_lcsuf_bound(s1@, s2@, i as int, j as int);
                }
                v = prev[j] + 1;
            } else {
                v = 0;
            }
            proof {
                assert(v as int == cell_val(s1@, s2@, i as int, j as int));
            }
            curr.push(v);
            if v > maxv {
                maxv = v;
                e1 = i + 1;
                e2 = j + 1;
            }
            j = j + 1;
        }
        prev = curr;
        i = i + 1;
        proof {
            assert(scan_max(s1@, s2@, i as int, 0) == scan_max(s1@, s2@, i as int - 1, n2 as int));
            assert(scan_end(s1@, s2@, i as int, 0) == scan_end(s1@, s2@, i as int - 1, n2 as int));
        }
    }
    (maxv, e1, e2)
}

/// Counts the characters matched by the recursive longest-common-substring
/// scheme.
pub fn matching_characters(s1: &Vec<char>, s2: &Vec<char>) -> (r: usize)
    requires
        s1@.len() + s2@.len() <= usize::MAX,
    ensures
        r as int == matched_count(s1@, s2@),
        2 * r <= s1@.len() + s2@.len(),
    decreases s1@.len() + s2@.len(),
{
    proof {
        lemma_matched_le(s1@, s2@);
    }
    let n1 = s1.len();
    let n2 = s2.len();
    if n1 == 0 || n2 == 0 {
        proof {
            if n1 == 0 {
                assert(s1@ =~= Seq::<char>::empty());
            } else {
                assert(s2@ =~= Seq::<char>::empty());
            }
            lemma_matched_empty(if n1 == 0 {
                s2@
            } else {
                s1@
            });
        }
        return 0;
    }
    proof {
        lemma_scan_bounds(s1@, s2@, s1@.len() as int, 0);
    }
    let (m, e1, e2) = lcs_scan(s1, s2);
    if m == 0 {
        return 0;
    }
    let left1 = sub_chars(s1, 0, e1 - m);
    let left2 = sub_chars(s2, 0, e2 - m);
    let right1 = sub_chars(s1, e1, n1);
    let right2 = sub_chars(s2, e2, n2);
    proof {
        assert(left1@ =~= s1@.take(e1 - m));
        assert(left2@ =~= s2@.take(e2 - m));
        assert(right1@ =~= s1@.skip(e1 as int));
        assert(right2@ =~= s2@.skip(e2 as int));
        lemma_matched_le(left1@, left2@);
        lemma_matched_le(right1@, right2@);
    }
    let left = matching_characters(&left1, &left2);
    let right = matching_characters(&right1, &right2);
    left + m + right
}

/// An exact similarity score: the ratio `2 * matched / total`, kept as the
/// integer pair. `total` is the sum of the two string lengths; a score with
/// `total == 0` (two empty strings) compares like no other score, as the
/// undefined ratio it stands for.
pub struct SimScore {
    pub matched: usize,
    pub total: usize,
}

impl SimScore {
    /// Every well-formed score lies in `[0, 1]`.
    pub open spec fn wf(&self) -> bool {
        2 * self.matched <= self.total
    }

    /// The score standing for the ratio one, the starting "best" of the
    /// inverted best-hypothesis selection.
    pub open spec fn spec_one() -> SimScore {
        SimScore { matched: 1, total: 2 }
    }
}

/// The score standing for the ratio one.
pub fn score_one() -> (r: SimScore)
    ensures
        r == SimScore::spec_one(),
        r.wf(),
{
    SimScore { matched: 1, total: 2 }
}

/// Whether score `a` is strictly below score `b`, by cross-multiplication.
pub open spec fn score_lt(a: SimScore, b: SimScore) -> bool {
    (a.matched as int) * (b.total as int) < (b.matched as int) * (a.total as int)
}

/// Compares two scores exactly.
pub fn score_lt_exec(a: &SimScore, b: &SimScore) -> (r: bool)
    requires
        a.wf(),
        b.wf(),
    ensures
        r == score_lt(*a, *b),
{
    proof {
        assert((a.matched as int) * (b.total as int) <= u128::MAX as int) by (nonlinear_arith)
            requires
                0 <= a.matched as int,
                0 <= b.total as int,
                2 * (a.matched as int) <= a.total as int <= usize::MAX as int,
                b.total as int <= usize::MAX as int,
        ;
        assert((b.matched as int) * (a.total as int) <= u128::MAX as int) by (nonlinear_arith)
            requires
                0 <= b.matched as int,
                0 <= a.total as int,
                2 * (b.matched as int) <= b.total as int <= usize::MAX as int,
                a.total as int <= usize::MAX as int,
        ;
    }
    (a.matched as u128) * (b.total as u128) < (b.matched as u128) * (a.total as u128)
}

/// Law: strict score comparison is transitive, so the running minimum of
/// the best-hypothesis selection is a true minimum.
pub proof fn lemma_score_lt_trans(a: SimScore, b: SimScore, c: SimScore)
    requires
        score_lt(a, b),
        score_lt(b, c),
    ensures
        score_lt(a, c),
{
    let am = a.matched as int;
    let at = a.total as int;
    let bm = b.matched as int;
    let bt = b.total as int;
    let cm = c.matched as int;
    let ct = c.total as int;
    assert(am * ct < cm * at) by (nonlinear_arith)
        requires
            am * bt < bm * at,
            bm * ct < cm * bt,
            0 <= am,
            0 <= at,
            0 <= bm,
            0 <= bt,
            0 <= cm,
            0 <= ct,
    ;
}

/// Law: a score strictly below one that is at most another is strictly
/// below whatever that other is strictly below; with transitivity, this
/// pins the running minimum of the best-hypothesis selection.
pub proof fn lemma_score_lt_le_trans(a: SimScore, b: SimScore, c: SimScore)
    requires
        score_lt(a, b),
        b.wf(),
        c.total >= 1,
        (b.matched as int) * (c.total as int) <= (c.matched as int) * (b.total as int),
    ensures
        score_lt(a, c),
{
    let am = a.matched as int;
    let at = a.total as int;
    let bm = b.matched as int;
    let bt = b.total as int;
    let cm = c.matched as int;
    let ct = c.total as int;
    // a zero-denominator middle score compares below nothing
    assert(bt >= 1) by (nonlinear_arith)
        requires
            am * bt < bm * at,
            2 * bm <= bt,
            0 <= am,
            0 <= at,
            0 <= bm,
            0 <= bt,
    ;
    assert(am * ct < cm * at) by (nonlinear_arith)
        requires
            am * bt < bm * at,
            bm * ct <= cm * bt,
            1 <= bt,
            1 <= ct,
            0 <= am,
            0 <= at,
            0 <= bm,
            0 <= cm,
    ;
}

/// The similarity score of two strings: the matched-character count of the
/// recursive longest-common-substring scheme over the pair, and the sum of
/// the lengths. The score it stands for is `2 * matched / total`; by
/// `lemma_matched_le` it lies in `[0, 1]`, a string against itself scores
/// one, and a nonempty string against the empty string scores zero.
pub fn ratcliff_obershelp_string_similarity(s1: &str, s2: &str) -> (r: SimScore)
    requires
        s1@.len() + s2@.len() <= usize::MAX,
    ensures
        r.total == s1@.len() + s2@.len(),
        r.matched as int == matched_count(s1@, s2@),
        r.wf(),
        s1@ == s2@ ==> r.matched == s1@.len(),
        s2@.len() == 0 ==> r.matched == 0,
{
    let c1 = str_chars(s1);
    let c2 = str_chars(s2);
    let m = matching_characters(&c1, &c2);
    proof {
        if s1@ == s2@ {
            lemma_matched_self(s1@);
        }
        if s2@.len() == 0 {
            assert(s2@ =~= Seq::<char>::empty());
            lemma_matched_empty(s1@);
        }
        lemma_matched_le(s1@, s2@);
    }
    SimScore { matched: m, total: c1.len() + c2.len() }
}

/// The matched-character count between a hypothesis's type text and a goal.
pub open spec fn hyp_sim_matched(h: Seq<char>, g: Seq<char>) -> int {
    matched_count(hyp_type_of(h), g)
}

/// The score denominator between a hypothesis's type text and a goal.
pub open spec fn hyp_sim_total(h: Seq<char>, g: Seq<char>) -> int {
    hyp_type_of(h).len() + g.len() as int
}

/// Whether the score of hypothesis `h1` against goal `g` is strictly below
/// the score of `h2`.
pub open spec fn hyp_lt(h1: Seq<char>, h2: Seq<char>, g: Seq<char>) -> bool {
    hyp_sim_matched(h1, g) * hyp_sim_total(h2, g) < hyp_sim_matched(h2, g) * hyp_sim_total(h1, g)
}

/// Whether the score of hypothesis `h` against goal `g` is strictly below
/// one.
pub open spec fn hyp_lt_one(h: Seq<char>, g: Seq<char>) -> bool {
    2 * hyp_sim_matched(h, g) < hyp_sim_total(h, g)
}

/// Scores one hypothesis's type text against the goal.
pub fn score_hyp(hyp: &Vec<char>, goal: &Vec<char>) -> (r: SimScore)
    requires
        hyp@.len() + goal@.len() <= usize::MAX,
    ensures
        r.matched as int == hyp_sim_matched(hyp@, goal@),
        r.total as int == hyp_sim_total(hyp@, goal@),
        r.wf(),
{
    let ty = get_hyp_type(hyp);
    proof {
        crate::text::lemma_hyp_type_len(hyp@);
        lemma_matched_le(ty@, goal@);
    }
    let m = matching_characters(&ty, goal);
    SimScore { matched: m, total: ty.len() + goal.len() }
}

/// Scores every hypothesis's type text against the goal, in order.
#[verifier::loop_isolation(false)]
pub fn score_hyps(hyps: &Vec<String>, goal: &str) -> (r: Vec<SimScore>)
    requires
        forall|i: int| 0 <= i < hyps@.len() ==> #[trigger] hyps@[i]@.len() + goal@.len()
            <= usize::MAX,
    ensures
        r@.len() == hyps@.len(),
        forall|i: int|
            0 <= i < hyps@.len() ==> (#[trigger] r@[i]).matched as int == hyp_sim_matched(
                hyps@[i]@,
                goal@,
            ) && r@[i].total as int == hyp_sim_total(hyps@[i]@, goal@) && r@[i].wf(),
{
    let g = str_chars(goal);
    let mut r: Vec<SimScore> = Vec::new();
    let mut i: usize = 0;
    while i < hyps.len()
        invariant
            i <= hyps@.len(),
            g@ == goal@,
            r@.len() == i,
            forall|k: int|
                0 <= k < i ==> (#[trigger] r@[k]).matched as int == hyp_sim_matched(
                    hyps@[k]@,
                    goal@,
                ) && r@[k].total as int == hyp_sim_total(hyps@[k]@, goal@) && r@[k].wf(),
        decreases hyps.len() - i,
    {
        let h = str_chars(&hyps[i]);
        let s = score_hyp(&h, &g);
        r.push(s);
        i = i + 1;
    }
    r
}

/// Picks the hypothesis whose score against the goal is strictly the lowest
/// found, scanning left to right and starting from the score one: the
/// inverted selection used for the head-word feature. `None` when no score
/// is strictly below one; ties keep the earliest hypothesis.
#[verifier::loop_isolation(false)]
pub fn best_scored_hyp(hyps: &Vec<String>, goal: &str) -> (r: (Option<usize>, SimScore))
    requires
        forall|i: int| 0 <= i < hyps@.len() ==> #[trigger] hyps@[i]@.len() + goal@.len()
            <= usize::MAX,
    ensures
        r.1.wf(),
        match r.0 {
            None => {
                &&& r.1 == SimScore::spec_one()
                &&& forall|j: int| 0 <= j < hyps@.len() ==> !hyp_lt_one(#[trigger] hyps@[j]@, goal@)
            },
            Some(b) => {
                &&& b < hyps@.len()
                &&& hyp_lt_one(hyps@[b as int]@, goal@)
                &&& r.1.matched as int == hyp_sim_matched(hyps@[b as int]@, goal@)
                &&& r.1.total as int == hyp_sim_total(hyps@[b as int]@, goal@)
                &&& forall|j: int|
                    0 <= j < hyps@.len() ==> !hyp_lt(#[trigger] hyps@[j]@, hyps@[b as int]@, goal@)
                &&& forall|j: int|
                    0 <= j < b ==> hyp_lt(hyps@[b as int]@, #[trigger] hyps@[j]@, goal@)
                        || !hyp_lt_one(hyps@[j]@, goal@)
            },
        },
{
    let g = str_chars(goal);
    let mut best: Option<usize> = None;
    let mut best_score: SimScore = score_one();
    let mut i: usize = 0;
    while i < hyps.len()
        invariant
            i <= hyps@.len(),
            g@ == goal@,
            best_score.wf(),
            match best {
                None => {
                    &&& best_score == SimScore::spec_one()
                    &&& forall|j: int| 0 <= j < i ==> !hyp_lt_one(#[trigger] hyps@[j]@, goal@)
                },
                Some(b) => {
                    &&& b < i
                    &&& hyp_lt_one(hyps@[b as int]@, goal@)
                    &&& best_score.matched as int == hyp_sim_matched(hyps@[b as int]@, goal@)
                    &&& best_score.total as int == hyp_sim_total(hyps@[b as int]@, goal@)
                    &&& forall|j: int|
                        0 <= j < i ==> !hyp_lt(#[trigger] hyps@[j]@, hyps@[b as int]@, goal@)
                    &&& forall|j: int|
                        0 <= j < b ==> hyp_lt(hyps@[b as int]@, #[trigger] hyps@[j]@, goal@)
                            || !hyp_lt_one(hyps@[j]@, goal@)
                },
            },
        decreases hyps.len() - i,
    {
        let h = str_chars(&hyps[i]);
        let s = score_hyp(&h, &g);
        if score_lt_exec(&s, &best_score) {
            proof {
                if best is Some {
                    lemma_score_lt_trans(s, best_score, SimScore::spec_one());
                }
                assert(hyp_lt_one(hyps@[i as int]@, goal@));
                assert forall|j: int|
                    0 <= j < i && hyp_lt_one(#[trigger] hyps@[j]@, goal@) implies hyp_lt(
                    hyps@[i as int]@,
                    hyps@[j]@,
                    goal@,
                ) by {
                    crate::text::lemma_hyp_type_len(hyps@[j]@);
                    lemma_matched_le(hyp_type_of(hyps@[j]@), goal@);
                    let sj = SimScore {
                        matched: hyp_sim_matched(hyps@[j]@, goal@) as usize,
                        total: hyp_sim_total(hyps@[j]@, goal@) as usize,
                    };
                    if best is None {
                        assert(false);
                    } else {
                        assert(!hyp_lt(hyps@[j]@, hyps@[best->Some_0 as int]@, goal@));
                        lemma_score_lt_le_trans(s, best_score, sj);
                    }
                }
                assert forall|j: int| 0 <= j < i implies !hyp_lt(
                    #[trigger] hyps@[j]@,
                    hyps@[i as int]@,
                    goal@,
                ) by {
                    crate::text::lemma_hyp_type_len(hyps@[j]@);
                    lemma_matched_le(hyp_type_of(hyps@[j]@), goal@);
                    let sj = SimScore {
                        matched: hyp_sim_matched(hyps@[j]@, goal@) as usize,
                        total: hyp_sim_total(hyps@[j]@, goal@) as usize,
                    };
                    if hyp_lt(hyps@[j]@, hyps@[i as int]@, goal@) {
                        lemma_score_lt_trans(sj, s, best_score);
                    }
                }
            }
            best = Some(i);
            best_score = s;
        } else {
            proof {
                if best is None {
                    assert(!hyp_lt_one(hyps@[i as int]@, goal@));
                }
            }
        }
        i = i + 1;
    }
    (best, best_score)
}

} // verus!
