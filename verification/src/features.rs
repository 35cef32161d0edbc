//! The closed vocabulary bundle (`TokenMap`) and the per-record context
//! features: previous-tactic, goal-head and hypothesis-head categorical
//! features, the equality-hypothesis sign feature, and the best-hypothesis
//! similarity feature.

use vstd::prelude::*;
use crate::TacticRecord;
use crate::indexer::{index_of, find_string, distinct_strings};
use crate::similarity::{SimScore, hyp_lt, hyp_lt_one, hyp_sim_matched, hyp_sim_total};
use crate::text::{
    str_chars, chars_to_string, get_words, words_of, stem_of, split_tactic, hyp_type_of,
    get_hyp_type, normalized_nl, replace_newlines, trimmed, trim_chars, has_substring,
    contains_chars, paren_or_space_split, split_to_next_matching_paren_or_space,
};
use crate::vocab::{is_top_vocab, index_common};

verus! {

/// The three closed vocabularies: tactic stems, goal head-words, and
/// hypothesis head-words, each an ordered list whose position is the index.
pub struct TokenMap {
    pub tactics: Vec<String>,
    pub goal_tokens: Vec<String>,
    pub hyp_tokens: Vec<String>,
}

/// Pickled form of a token map: the three ordered string lists.
pub type PickleableTokenMap = (Vec<String>, Vec<String>, Vec<String>);

/// The tactic stem of each record that has one, in corpus order.
pub open spec fn stem_stream(rs: Seq<TacticRecord>) -> Seq<Seq<char>>
    decreases rs.len(),
{
    if rs.len() == 0 {
        Seq::empty()
    } else {
        (match stem_of(rs[0].tactic@) {
            Some(st) => seq![st],
            None => Seq::empty(),
        }) + stem_stream(rs.drop_first())
    }
}

/// The first word of each text that has one, in order.
pub open spec fn heads_of(hs: Seq<Seq<char>>) -> Seq<Seq<char>>
    decreases hs.len(),
{
    if hs.len() == 0 {
        Seq::empty()
    } else {
        (if words_of(hs[0]).len() > 0 {
            seq![words_of(hs[0])[0]]
        } else {
            Seq::empty()
        }) + heads_of(hs.drop_first())
    }
}

/// The head word of every focused hypothesis of every record, in order.
pub open spec fn hyp_head_stream(rs: Seq<TacticRecord>) -> Seq<Seq<char>>
    decreases rs.len(),
{
    if rs.len() == 0 {
        Seq::empty()
    } else {
        heads_of(rs[0].hypotheses.deep_view()) + hyp_head_stream(rs.drop_first())
    }
}

/// The head word of each record's goal that has one, in corpus order.
pub open spec fn goal_head_stream(rs: Seq<TacticRecord>) -> Seq<Seq<char>>
    decreases rs.len(),
{
    if rs.len() == 0 {
        Seq::empty()
    } else {
        (if words_of(rs[0].goal@).len() > 0 {
            seq![words_of(rs[0].goal@)[0]]
        } else {
            Seq::empty()
        }) + goal_head_stream(rs.drop_first())
    }
}

proof fn lemma_stream_push(rs: Seq<TacticRecord>, rec: TacticRecord)
    ensures
        stem_stream(rs.push(rec)) == stem_stream(rs) + (match stem_of(rec.tactic@) {
            Some(st) => seq![st],
            None => Seq::<Seq<char>>::empty(),
        }),
        hyp_head_stream(rs.push(rec)) == hyp_head_stream(rs) + heads_of(
            rec.hypotheses.deep_view(),
        ),
        goal_head_stream(rs.push(rec)) == goal_head_stream(rs) + (if words_of(
            rec.goal@,
        ).len() > 0 {
            seq![words_of(rec.goal@)[0]]
        } else {
            Seq::<Seq<char>>::empty()
        }),
    decreases rs.len(),
{
    if rs.len() == 0 {
        assert(rs.push(rec)[0] == rec);
        assert(rs.push(rec).drop_first() =~= rs);
        assert(stem_stream(rs) =~= Seq::<Seq<char>>::empty());
        assert(hyp_head_stream(rs) =~= Seq::<Seq<char>>::empty());
        assert(goal_head_stream(rs) =~= Seq::<Seq<char>>::empty());
        assert(stem_stream(rs.push(rec)) =~= stem_stream(rs) + (match stem_of(rec.tactic@) {
            Some(st) => seq![st],
            None => Seq::<Seq<char>>::empty(),
        }));
        assert(hyp_head_stream(rs.push(rec)) =~= hyp_head_stream(rs) + heads_of(
            rec.hypotheses.deep_view(),
        ));
        assert(goal_head_stream(rs.push(rec)) =~= goal_head_stream(rs) + (if words_of(
            rec.goal@,
        ).len() > 0 {
            seq![words_of(rec.goal@)[0]]
        } else {
            Seq::<Seq<char>>::empty()
        }));
    } else {
        lemma_stream_push(rs.drop_first(), rec);
        assert(rs.push(rec).drop_first() =~= rs.drop_first().push(rec));
        assert(rs.push(rec)[0] == rs[0]);
        assert(stem_stream(rs.push(rec)) =~= stem_stream(rs) + (match stem_of(rec.tactic@) {
            Some(st) => seq![st],
            None => Seq::<Seq<char>>::empty(),
        }));
        assert(hyp_head_stream(rs.push(rec)) =~= hyp_head_stream(rs) + heads_of(
            rec.hypotheses.deep_view(),
        ));
        assert(goal_head_stream(rs.push(rec)) =~= goal_head_stream(rs) + (if words_of(
            rec.goal@,
        ).len() > 0 {
            seq![words_of(rec.goal@)[0]]
        } else {
            Seq::<Seq<char>>::empty()
        }));
    }
}

proof fn lemma_heads_push(hs: Seq<Seq<char>>, h: Seq<char>)
    ensures
        heads_of(hs.push(h)) == heads_of(hs) + (if words_of(h).len() > 0 {
            seq![words_of(h)[0]]
        } else {
            Seq::<Seq<char>>::empty()
        }),
    decreases hs.len(),
{
    if hs.len() == 0 {
        assert(hs.push(h)[0] == h);
        assert(hs.push(h).drop_first() =~= hs);
        assert(heads_of(hs.push(h)) =~= heads_of(hs) + (if words_of(h).len() > 0 {
            seq![words_of(h)[0]]
        } else {
            Seq::<Seq<char>>::empty()
        }));
    } else {
        lemma_heads_push(hs.drop_first(), h);
        assert(hs.push(h).drop_first() =~= hs.drop_first().push(h));
        assert(hs.push(h)[0] == hs[0]);
        assert(heads_of(hs.push(h)) =~= heads_of(hs) + (if words_of(h).len() > 0 {
            seq![words_of(h)[0]]
        } else {
            Seq::<Seq<char>>::empty()
        }));
    }
}

/// Collects the tactic stems of a corpus.
#[verifier::loop_isolation(false)]
fn collect_stems(records: &Vec<TacticRecord>) -> (r: Vec<String>)
    ensures
        r.deep_view() == stem_stream(records@),
{
    let mut r: Vec<String> = Vec::new();
    let mut i: usize = 0;
    proof {
        assert(records@.take(0) =~= Seq::<TacticRecord>::empty());
        assert(r.deep_view() =~~= stem_stream(records@.take(0)));
    }
    while i < records.len()
        invariant
            i <= records@.len(),
            r.deep_view() == stem_stream(records@.take(i as int)),
        decreases records.len() - i,
    {
        proof {
            assert(records@.take(i as int + 1) =~= records@.take(i as int).push(
                records@[i as int],
            ));
            lemma_stream_push(records@.take(i as int), records@[i as int]);
        }
        let ghost old_r = r.deep_view();
        let t = str_chars(&records[i].tactic);
        match split_tactic(&t) {
            Some(p) => {
                r.push(chars_to_string(&p.0));
                proof {
                    assert(r.deep_view() =~~= old_r.push(p.0@));
                    assert(r.deep_view() =~~= stem_stream(records@.take(i as int + 1)));
                }
            },
            None => {
                proof {
                    assert(old_r + Seq::<Seq<char>>::empty() =~= old_r);
                }
            },
        }
        i = i + 1;
    }
    proof {
        assert(records@.take(records@.len() as int) =~= records@);
    }
    r
}

/// Collects the goal head-words of a corpus.
#[verifier::loop_isolation(false)]
fn collect_goal_heads(records: &Vec<TacticRecord>) -> (r: Vec<String>)
    ensures
        r.deep_view() == goal_head_stream(records@),
{
    let mut r: Vec<String> = Vec::new();
    let mut i: usize = 0;
    proof {
        assert(records@.take(0) =~= Seq::<TacticRecord>::empty());
        assert(r.deep_view() =~~= goal_head_stream(records@.take(0)));
    }
    while i < records.len()
        invariant
            i <= records@.len(),
            r.deep_view() == goal_head_stream(records@.take(i as int)),
        decreases records.len() - i,
    {
        proof {
            assert(records@.take(i as int + 1) =~= records@.take(i as int).push(
                records@[i as int],
            ));
            lemma_stream_push(records@.take(i as int), records@[i as int]);
        }
        let ghost old_r = r.deep_view();
        let g = str_chars(&records[i].goal);
        let ws = get_words(&g);
        if ws.len() > 0 {
            proof {
                assert(ws.deep_view()[0] == words_of(records@[i as int].goal@)[0]);
                assert(ws@[0]@ =~= ws.deep_view()[0]);
            }
            r.push(chars_to_string(&ws[0]));
            proof {
                assert(r.deep_view() =~~= old_r.push(words_of(records@[i as int].goal@)[0]));
                assert(r.deep_view() =~~= goal_head_stream(records@.take(i as int + 1)));
            }
        } else {
            proof {
                assert(old_r + Seq::<Seq<char>>::empty() =~= old_r);
            }
        }
        i = i + 1;
    }
    proof {
        assert(records@.take(records@.len() as int) =~= records@);
    }
    r
}

/// Collects the hypothesis head-words of a corpus.
#[verifier::loop_isolation(false)]
fn collect_hyp_heads(records: &Vec<TacticRecord>) -> (r: Vec<String>)
    ensures
        r.deep_view() == hyp_head_stream(records@),
{
    let mut r: Vec<String> = Vec::new();
    let mut i: usize = 0;
    proof {
        assert(records@.take(0) =~= Seq::<TacticRecord>::empty());
        assert(r.deep_view() =~~= hyp_head_stream(records@.take(0)));
    }
    while i < records.len()
        invariant
            i <= records@.len(),
            r.deep_view() == hyp_head_stream(records@.take(i as int)),
        decreases records.len() - i,
    {
        proof {
            assert(records@.take(i as int + 1) =~= records@.take(i as int).push(
                records@[i as int],
            ));
            lemma_stream_push(records@.take(i as int), records@[i as int]);
        }
        let hyps = &records[i].hypotheses;
        let ghost hv = hyps.deep_view();
        let mut j: usize = 0;
        proof {
            assert(hv.take(0) =~= Seq::<Seq<char>>::empty());
            assert(r.deep_view() + heads_of(hv.take(0)) =~~= r.deep_view());
        }
        let ghost row_start = r.deep_view();
        while j < hyps.len()
            invariant
                j <= hyps@.len(),
                hyps.deep_view() == hv,
                r.deep_view() == row_start + heads_of(hv.take(j as int)),
            decreases hyps.len() - j,
        {
            proof {
                assert(hv.take(j as int + 1) =~= hv.take(j as int).push(hv[j as int]));
                lemma_heads_push(hv.take(j as int), hv[j as int]);
            }
            let ghost old_r = r.deep_view();
            let h = str_chars(&hyps[j]);
            proof {
                assert(h@ =~= hv[j as int]);
            }
            let ws = get_words(&h);
            if ws.len() > 0 {
                proof {
                    assert(ws.deep_view()[0] == words_of(hv[j as int])[0]);
                    assert(ws@[0]@ =~= ws.deep_view()[0]);
                }
                r.push(chars_to_string(&ws[0]));
                proof {
                    assert(r.deep_view() =~~= old_r.push(words_of(hv[j as int])[0]));
                    assert(r.deep_view() =~~= row_start + heads_of(hv.take(j as int + 1)));
                }
            } else {
                proof {
                    assert(old_r + Seq::<Seq<char>>::empty() =~= old_r);
                    assert(r.deep_view() =~~= row_start + heads_of(hv.take(j as int + 1)));
                }
            }
            j = j + 1;
        }
        proof {
            assert(hv.take(hv.len() as int) =~= hv);
            assert(r.deep_view() =~~= hyp_head_stream(records@.take(i as int + 1)));
        }
        i = i + 1;
    }
    proof {
        assert(records@.take(records@.len() as int) =~= records@);
    }
    r
}

impl TokenMap {
    /// Every vocabulary is a bijection small enough that its largest feature
    /// value fits a signed tensor label.
    pub open spec fn wf(&self) -> bool {
        &&& distinct_strings(self.tactics.deep_view())
        &&& distinct_strings(self.goal_tokens.deep_view())
        &&& distinct_strings(self.hyp_tokens.deep_view())
        &&& self.tactics@.len() + 2 <= i64::MAX
        &&& self.goal_tokens@.len() + 2 <= i64::MAX
        &&& self.hyp_tokens@.len() + 2 <= i64::MAX
    }

    /// Builds the three frequency-capped vocabularies from a corpus: tactic
    /// stems, hypothesis head-words, and goal head-words, each keeping the
    /// `count` most frequent distinct values.
    pub fn initialize(init_data: &Vec<TacticRecord>, count: usize) -> (r: TokenMap)
        requires
            count + 2 <= i64::MAX,
        ensures
            r.wf(),
            is_top_vocab(stem_stream(init_data@), count as int, r.tactics.deep_view()),
            is_top_vocab(goal_head_stream(init_data@), count as int, r.goal_tokens.deep_view()),
            is_top_vocab(hyp_head_stream(init_data@), count as int, r.hyp_tokens.deep_view()),
    {
        let stems = collect_stems(init_data);
        let goal_heads = collect_goal_heads(init_data);
        let hyp_heads = collect_hyp_heads(init_data);
        TokenMap {
            tactics: index_common(&stems, count),
            goal_tokens: index_common(&goal_heads, count),
            hyp_tokens: index_common(&hyp_heads, count),
        }
    }

    /// The size of each categorical feature space, reserved slots included:
    /// one unknown slot for tactics and hypothesis heads, two (unknown and
    /// absent) for goal heads.
    pub fn word_features_sizes(&self) -> (r: Vec<i64>)
        requires
            self.wf(),
        ensures
            r@.len() == 3,
            r@[0] as int == self.tactics@.len() + 1,
            r@[1] as int == self.goal_tokens@.len() + 2,
            r@[2] as int == self.hyp_tokens@.len() + 1,
    {
        let mut r: Vec<i64> = Vec::new();
        r.push(self.tactics.len() as i64 + 1);
        r.push(self.goal_tokens.len() as i64 + 2);
        r.push(self.hyp_tokens.len() as i64 + 1);
        r
    }

    /// Exports the three ordered vocabulary lists; position is index.
    pub fn to_dicts(&self) -> (r: PickleableTokenMap)
        ensures
            r.0.deep_view() == self.tactics.deep_view(),
            r.1.deep_view() == self.goal_tokens.deep_view(),
            r.2.deep_view() == self.hyp_tokens.deep_view(),
    {
        let t = self.tactics.clone();
        let g = self.goal_tokens.clone();
        let h = self.hyp_tokens.clone();
        proof {
            assert(t.deep_view() =~~= self.tactics.deep_view());
            assert(g.deep_view() =~~= self.goal_tokens.deep_view());
            assert(h.deep_view() =~~= self.hyp_tokens.deep_view());
        }
        (t, g, h)
    }

    /// Restores a token map from its three ordered vocabulary lists.
    pub fn from_dicts(dicts: PickleableTokenMap) -> (r: TokenMap)
        ensures
            r.tactics == dicts.0,
            r.goal_tokens == dicts.1,
            r.hyp_tokens == dicts.2,
    {
        TokenMap { tactics: dicts.0, goal_tokens: dicts.1, hyp_tokens: dicts.2 }
    }
}

/// Law: the exported lists are the whole state of a token map, so a
/// save-then-load round trip reproduces every string-to-index mapping:
/// two maps whose exported lists agree index every string alike.
pub proof fn lemma_token_map_round_trip(tm1: TokenMap, tm2: TokenMap)
    requires
        tm1.tactics.deep_view() == tm2.tactics.deep_view(),
        tm1.goal_tokens.deep_view() == tm2.goal_tokens.deep_view(),
        tm1.hyp_tokens.deep_view() == tm2.hyp_tokens.deep_view(),
    ensures
        forall|x: Seq<char>| #[trigger] index_of(tm1.tactics.deep_view(), x) == index_of(
            tm2.tactics.deep_view(),
            x,
        ),
        forall|x: Seq<char>| #[trigger] index_of(tm1.goal_tokens.deep_view(), x) == index_of(
            tm2.goal_tokens.deep_view(),
            x,
        ),
        forall|x: Seq<char>| #[trigger] index_of(tm1.hyp_tokens.deep_view(), x) == index_of(
            tm2.hyp_tokens.deep_view(),
            x,
        ),
{
}

/// The previous-tactic feature: zero when there is no previous tactic, its
/// stem is absent, or the stem is out of vocabulary; else the index plus one.
pub open spec fn prev_tactic_feature_s(tactics: Seq<Seq<char>>, prevs: Seq<Seq<char>>) -> int {
    if prevs.len() == 0 {
        0
    } else {
        match stem_of(prevs.last()) {
            Some(st) => match index_of(tactics, st) {
                Some(k) => k + 1,
                None => 0,
            },
            None => 0,
        }
    }
}

/// Computes the previous-tactic feature.
pub fn prev_tactic_feature(tmap: &TokenMap, prev_tactics: &Vec<String>) -> (r: i64)
    requires
        tmap.wf(),
    ensures
        r as int == prev_tactic_feature_s(tmap.tactics.deep_view(), prev_tactics.deep_view()),
{
    if prev_tactics.len() == 0 {
        return 0;
    }
    let last = str_chars(&prev_tactics[prev_tactics.len() - 1]);
    proof {
        assert(prev_tactics.deep_view().last() == prev_tactics@[prev_tactics@.len() - 1]@);
    }
    match split_tactic(&last) {
        Some(p) => {
            match find_string(&tmap.tactics, &p.0) {
                Some(k) => k as i64 + 1,
                None => 0,
            }
        },
        None => 0,
    }
}

/// The goal-head feature: zero for a goal without tokens, one for an
/// out-of-vocabulary head word, else the index plus two.
pub open spec fn goal_head_feature_s(goal_tokens: Seq<Seq<char>>, goal: Seq<char>) -> int {
    if words_of(goal).len() == 0 {
        0
    } else {
        match index_of(goal_tokens, words_of(goal)[0]) {
            Some(k) => k + 2,
            None => 1,
        }
    }
}

/// Computes the goal-head feature.
pub fn goal_head_feature(tmap: &TokenMap, goal: &str) -> (r: i64)
    requires
        tmap.wf(),
    ensures
        r as int == goal_head_feature_s(tmap.goal_tokens.deep_view(), goal@),
{
    let g = str_chars(goal);
    let ws = get_words(&g);
    if ws.len() == 0 {
        return 0;
    }
    proof {
        assert(ws.deep_view()[0] == words_of(goal@)[0]);
        assert(ws@[0]@ =~= ws.deep_view()[0]);
    }
    match find_string(&tmap.goal_tokens, &ws[0]) {
        Some(k) => k as i64 + 2,
        None => 1,
    }
}

/// The hypothesis-head feature: zero when the hypothesis has no tokens or
/// its head word is out of vocabulary, else the index plus one.
pub open spec fn hyp_head_feature_s(hyp_tokens: Seq<Seq<char>>, hyp: Seq<char>) -> int {
    if words_of(hyp).len() == 0 {
        0
    } else {
        match index_of(hyp_tokens, words_of(hyp)[0]) {
            Some(k) => k + 1,
            None => 0,
        }
    }
}

/// Computes the hypothesis-head feature of the best-scored hypothesis.
pub fn hyp_head_feature(tmap: &TokenMap, best_hyp: &str) -> (r: i64)
    requires
        tmap.wf(),
    ensures
        r as int == hyp_head_feature_s(tmap.hyp_tokens.deep_view(), best_hyp@),
{
    let h = str_chars(best_hyp);
    let ws = get_words(&h);
    if ws.len() == 0 {
        return 0;
    }
    proof {
        assert(ws.deep_view()[0] == words_of(best_hyp@)[0]);
        assert(ws@[0]@ =~= ws.deep_view()[0]);
    }
    match find_string(&tmap.hyp_tokens, &ws[0]) {
        Some(k) => k as i64 + 1,
        None => 0,
    }
}

/// What the equality pattern of the regex crate captures on a (newline-
/// normalized) hypothesis type: `None` when the text is not an application
/// of `eq`, else the argument text after the head keyword.
pub uninterp spec fn eq_rest(s: Seq<char>) -> Option<Seq<char>>;

/// Relies on `regex::Regex::new` and `Regex::captures` with the pattern
/// `^\s*eq\s+(.*)`: whether the text applies `eq` and, if so, the text of
/// the first capture group. The pattern is fixed and valid, so compiling it
/// cannot fail; group 1 always participates in a match.
#[verifier::external_body]
fn eq_capture(s: &str) -> (r: Option<String>)
    ensures
        r.deep_view() == eq_rest(s@),
{
    let re = regex::Regex::new(r"^\s*eq\s+(.*)").unwrap();
    match re.captures(s) {
        Some(c) => Some(c.get(1).unwrap().as_str().to_string()),
        None => None,
    }
}

/// The equality-hypothesis sign feature: when the (newline-normalized) type
/// text applies `eq`, its argument text is split at the first top-level
/// boundary; the feature is minus one when the goal contains the trimmed
/// left side, plus one when it contains the trimmed right side (left
/// checked first), and zero otherwise or when the right side is empty.
pub open spec fn equality_feature_s(hyp: Seq<char>, goal: Seq<char>) -> int {
    let nh = normalized_nl(hyp_type_of(hyp));
    let ng = normalized_nl(goal);
    match eq_rest(nh) {
        Some(rest) => {
            let sides = paren_or_space_split(rest);
            if has_substring(ng, trimmed(sides.0)) && sides.1.len() > 0 {
                -1
            } else if has_substring(ng, trimmed(sides.1)) && sides.1.len() > 0 {
                1
            } else {
                0
            }
        },
        None => 0,
    }
}

/// Computes the equality-hypothesis sign feature; never both signs.
pub fn equality_hyp_feature(hyp: &str, goal: &str) -> (r: i64)
    ensures
        r as int == equality_feature_s(hyp@, goal@),
        r == -1 || r == 0 || r == 1,
{
    let h = str_chars(hyp);
    let ty = get_hyp_type(&h);
    let nh = replace_newlines(&ty);
    let g = str_chars(goal);
    let ng = replace_newlines(&g);
    let nh_string = chars_to_string(&nh);
    match eq_capture(nh_string.as_str()) {
        Some(rest) => {
            let rest_chars = str_chars(rest.as_str());
            let sides = split_to_next_matching_paren_or_space(&rest_chars);
            let left_trimmed = trim_chars(&sides.0);
            let right_trimmed = trim_chars(&sides.1);
            if contains_chars(&ng, &left_trimmed) && sides.1.len() > 0 {
                -1
            } else if contains_chars(&ng, &right_trimmed) && sides.1.len() > 0 {
                1
            } else {
                0
            }
        },
        None => 0,
    }
}

/// What the best-hypothesis choice of the inverted similarity selection
/// promises: either no hypothesis scores strictly below one, or `b` is a
/// strictly-below-one hypothesis no other hypothesis strictly undercuts,
/// with `sm / st` its exact score fraction.
pub open spec fn best_choice_ok(
    hyps: Seq<Seq<char>>,
    goal: Seq<char>,
    b: Option<int>,
    sm: int,
    st: int,
) -> bool {
    match b {
        None => {
            &&& sm == 1
            &&& st == 2
            &&& forall|j: int| 0 <= j < hyps.len() ==> !hyp_lt_one(#[trigger] hyps[j], goal)
        },
        Some(bi) => {
            &&& 0 <= bi < hyps.len()
            &&& hyp_lt_one(hyps[bi], goal)
            &&& sm == hyp_sim_matched(hyps[bi], goal)
            &&& st == hyp_sim_total(hyps[bi], goal)
            &&& forall|j: int| 0 <= j < hyps.len() ==> !hyp_lt(#[trigger] hyps[j], hyps[bi], goal)
            &&& forall|j: int|
                0 <= j < bi ==> hyp_lt(hyps[bi], #[trigger] hyps[j], goal) || !hyp_lt_one(
                    hyps[j],
                    goal,
                )
        },
    }
}

/// Law: the best-hypothesis choice is unique — any two choices satisfying
/// `best_choice_ok` for the same hypotheses and goal pick the same
/// hypothesis and report the same score, so the single-query and corpus
/// paths (and any two runs) featurize a record identically.
pub proof fn lemma_best_choice_unique(
    hyps: Seq<Seq<char>>,
    goal: Seq<char>,
    b1: Option<int>,
    sm1: int,
    st1: int,
    b2: Option<int>,
    sm2: int,
    st2: int,
)
    requires
        best_choice_ok(hyps, goal, b1, sm1, st1),
        best_choice_ok(hyps, goal, b2, sm2, st2),
    ensures
        b1 == b2,
        sm1 == sm2,
        st1 == st2,
{
    match (b1, b2) {
        (Some(x), Some(y)) => {
            if x < y {
                assert(hyp_lt(hyps[y], hyps[x], goal) || !hyp_lt_one(hyps[x], goal));
                assert(!hyp_lt(hyps[y], hyps[x], goal));
            } else if y < x {
                assert(hyp_lt(hyps[x], hyps[y], goal) || !hyp_lt_one(hyps[y], goal));
                assert(!hyp_lt(hyps[x], hyps[y], goal));
            }
        },
        (Some(x), None) => {
            assert(!hyp_lt_one(hyps[x], goal));
        },
        (None, Some(y)) => {
            assert(!hyp_lt_one(hyps[y], goal));
        },
        (None, None) => {},
    }
}

/// The hypothesis-head feature of a chosen best hypothesis; zero when none
/// was chosen (the feature of the empty text).
pub open spec fn chosen_hyp_head_feature(
    hyp_tokens: Seq<Seq<char>>,
    hyps: Seq<Seq<char>>,
    b: Option<int>,
) -> int {
    match b {
        None => 0,
        Some(bi) => hyp_head_feature_s(hyp_tokens, hyps[bi]),
    }
}

/// What one record's context features promise: the three word features,
/// with the third computed on a valid best-hypothesis choice whose exact
/// score fraction is the record's scalar feature.
pub open spec fn context_result_ok(
    tmap: TokenMap,
    prevs: Seq<Seq<char>>,
    hyps: Seq<Seq<char>>,
    goal: Seq<char>,
    word: Seq<i64>,
    score: SimScore,
) -> bool {
    &&& word.len() == 3
    &&& word[0] as int == prev_tactic_feature_s(tmap.tactics.deep_view(), prevs)
    &&& word[1] as int == goal_head_feature_s(tmap.goal_tokens.deep_view(), goal)
    &&& exists|b: Option<int>|
        #[trigger] best_choice_ok(hyps, goal, b, score.matched as int, score.total as int)
            && word[2] as int == chosen_hyp_head_feature(tmap.hyp_tokens.deep_view(), hyps, b)
    &&& score.wf()
}

/// Law: a record's context features are a function of the record alone —
/// any two rows satisfying `context_result_ok` for the same previous
/// tactics, hypotheses and goal are equal, so the single-query path, the
/// corpus path, and any two runs featurize a record identically.
pub proof fn lemma_context_rows_agree(
    tmap: TokenMap,
    prevs: Seq<Seq<char>>,
    hyps: Seq<Seq<char>>,
    goal: Seq<char>,
    w1: Seq<i64>,
    s1: SimScore,
    w2: Seq<i64>,
    s2: SimScore,
)
    requires
        context_result_ok(tmap, prevs, hyps, goal, w1, s1),
        context_result_ok(tmap, prevs, hyps, goal, w2, s2),
    ensures
        w1 == w2,
        s1 == s2,
{
    let b1 = choose|b: Option<int>|
        #[trigger] best_choice_ok(hyps, goal, b, s1.matched as int, s1.total as int) && w1[2] as int
            == chosen_hyp_head_feature(tmap.hyp_tokens.deep_view(), hyps, b);
    let b2 = choose|b: Option<int>|
        #[trigger] best_choice_ok(hyps, goal, b, s2.matched as int, s2.total as int) && w2[2] as int
            == chosen_hyp_head_feature(tmap.hyp_tokens.deep_view(), hyps, b);
    lemma_best_choice_unique(
        hyps,
        goal,
        b1,
        s1.matched as int,
        s1.total as int,
        b2,
        s2.matched as int,
        s2.total as int,
    );
    assert(w1 =~= w2);
}

/// The context features of one proof state: the three word features and the
/// best-hypothesis similarity score. The relevant lemmas play no part in
/// these features.
pub fn sample_context_features(
    tmap: &TokenMap,
    _relevant_lemmas: &Vec<String>,
    prev_tactics: &Vec<String>,
    hypotheses: &Vec<String>,
    goal: &str,
) -> (r: (Vec<i64>, SimScore))
    requires
        tmap.wf(),
        forall|i: int| 0 <= i < hypotheses@.len() ==> #[trigger] hypotheses@[i]@.len() + goal@.len()
            <= usize::MAX,
    ensures
        context_result_ok(
            *tmap,
            prev_tactics.deep_view(),
            hypotheses.deep_view(),
            goal@,
            r.0@,
            r.1,
        ),
{
    let (best, best_score) = crate::similarity::best_scored_hyp(hypotheses, goal);
    let mut word: Vec<i64> = Vec::new();
    word.push(prev_tactic_feature(tmap, prev_tactics));
    word.push(goal_head_feature(tmap, goal));
    let hyp_feature: i64 = match best {
        Some(b) => {
            proof {
                assert(hypotheses.deep_view()[b as int] == hypotheses@[b as int]@);
            }
            hyp_head_feature(tmap, hypotheses[b].as_str())
        },
        None => 0,
    };
    word.push(hyp_feature);
    proof {
        let ghost bg: Option<int> = match best {
            Some(b) => Some(b as int),
            None => None,
        };
        assert(best_choice_ok(
            hypotheses.deep_view(),
            goal@,
            bg,
            best_score.matched as int,
            best_score.total as int,
        ));
    }
    (word, best_score)
}

/// The context features of a whole corpus, record by record: one row of
/// three word features and one similarity score per record, positionally
/// aligned with the input.
#[verifier::loop_isolation(false)]
pub fn context_features(tmap: &TokenMap, data: &Vec<TacticRecord>) -> (r: (
    Vec<Vec<i64>>,
    Vec<SimScore>,
))
    requires
        tmap.wf(),
        forall|k: int, i: int|
            0 <= k < data@.len() && 0 <= i < data@[k].hypotheses@.len()
                ==> (#[trigger] data@[k].hypotheses@[i])@.len() + data@[k].goal@.len()
                <= usize::MAX,
    ensures
        r.0@.len() == data@.len(),
        r.1@.len() == data@.len(),
        forall|k: int|
            0 <= k < data@.len() ==> context_result_ok(
                *tmap,
                data@[k].prev_tactics.deep_view(),
                data@[k].hypotheses.deep_view(),
                data@[k].goal@,
                (#[trigger] r.0@[k])@,
                r.1@[k],
            ),
{
    let mut word_rows: Vec<Vec<i64>> = Vec::new();
    let mut scores: Vec<SimScore> = Vec::new();
    let mut k: usize = 0;
    while k < data.len()
        invariant
            k <= data@.len(),
            word_rows@.len() == k,
            scores@.len() == k,
            forall|k2: int|
                0 <= k2 < k ==> context_result_ok(
                    *tmap,
                    data@[k2].prev_tactics.deep_view(),
                    data@[k2].hypotheses.deep_view(),
                    data@[k2].goal@,
                    (#[trigger] word_rows@[k2])@,
                    scores@[k2],
                ),
        decreases data.len() - k,
    {
        let rec = &data[k];
        let (word, score) = sample_context_features(
            tmap,
            &rec.relevant_lemmas,
            &rec.prev_tactics,
            &rec.hypotheses,
            rec.goal.as_str(),
        );
        word_rows.push(word);
        scores.push(score);
        k = k + 1;
    }
    (word_rows, scores)
}

} // verus!
