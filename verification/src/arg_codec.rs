//! The symbolic tactic-argument encoding: a state-free bijection between
//! tagged arguments and a flat index space of size
//! `max_length + max_premises + 1`, plus the bounded-random hypothesis
//! selection used while training.
//!
//! Index `0` stands for both `NoArg` and `Unrecognized` (a deliberate,
//! documented collapse: decoding `0` always yields `NoArg`); indices
//! `1..=max_length` stand for goal tokens; higher indices for hypothesis
//! variables of the currently selected premise list.

use vstd::prelude::*;
use crate::{DataloaderArgs, FpaError};
use crate::text::{
    str_chars, chars_to_string, sub_chars, get_words, words_of, symbol_matches, symbol_match_s,
    first_var_of, get_first_var, get_hyp_names, names_of_hyp,
};
use crate::vocab::in_list;

verus! {

/// A tactic argument: none, the i-th goal token, the i-th selected
/// hypothesis, or text that matched neither.
#[derive(Clone, Copy, Debug, PartialEq, Eq, Structural)]
pub enum TacticArgument {
    HypVar(usize),
    GoalToken(usize),
    NoArg,
    Unrecognized,
}

/// The flat index of an argument: `NoArg` and `Unrecognized` collapse to
/// zero, goal tokens shift by one, hypothesis variables by
/// `max_length + 1`.
pub open spec fn arg_index_s(max_length: int, arg: TacticArgument) -> int {
    match arg {
        TacticArgument::Unrecognized => 0,
        TacticArgument::NoArg => 0,
        TacticArgument::GoalToken(t) => t + 1,
        TacticArgument::HypVar(h) => h + max_length + 1,
    }
}

/// The argument a flat index stands for; zero always decodes to `NoArg`.
pub open spec fn arg_from_index_s(max_length: int, idx: int) -> TacticArgument {
    if idx == 0 {
        TacticArgument::NoArg
    } else if idx <= max_length {
        TacticArgument::GoalToken((idx - 1) as usize)
    } else {
        TacticArgument::HypVar((idx - max_length - 1) as usize)
    }
}

/// Law: decoding any index of the argument space and encoding the result
/// gives the index back; the one exception is the documented collapse at
/// zero, where decoding yields `NoArg`.
pub proof fn lemma_arg_index_round_trip(max_length: int, max_premises: int, i: int)
    requires
        0 <= max_length,
        0 <= i <= max_length + max_premises,
        max_length + max_premises <= usize::MAX,
    ensures
        arg_index_s(max_length, arg_from_index_s(max_length, i)) == i,
        arg_from_index_s(max_length, 0) == TacticArgument::NoArg,
{
}

/// Law: encoding an argument and decoding the index gives the argument
/// back, except that `Unrecognized` comes back as `NoArg` (the collapse).
pub proof fn lemma_arg_encode_round_trip(max_length: int, arg: TacticArgument)
    requires
        0 <= max_length,
        arg matches TacticArgument::GoalToken(t) ==> t < max_length,
        arg matches TacticArgument::HypVar(h) ==> h + max_length + 1 <= usize::MAX,
    ensures
        arg_from_index_s(max_length, arg_index_s(max_length, arg)) == (match arg {
            TacticArgument::Unrecognized => TacticArgument::NoArg,
            _ => arg,
        }),
{
}

/// Computes the flat index of an argument.
pub fn arg_to_index(dargs: &DataloaderArgs, arg: TacticArgument) -> (r: i64)
    requires
        arg matches TacticArgument::GoalToken(t) ==> t + 1 <= i64::MAX,
        arg matches TacticArgument::HypVar(h) ==> h + dargs.max_length + 1 <= i64::MAX,
    ensures
        r as int == arg_index_s(dargs.max_length as int, arg),
{
    match arg {
        TacticArgument::Unrecognized => 0,
        TacticArgument::NoArg => 0,
        TacticArgument::GoalToken(t) => t as i64 + 1,
        TacticArgument::HypVar(h) => h as i64 + dargs.max_length as i64 + 1,
    }
}

/// Decodes a flat index into a tagged argument.
pub fn arg_from_index(dargs: &DataloaderArgs, idx: i64) -> (r: TacticArgument)
    requires
        dargs.wf(),
        0 <= idx,
        idx as int <= dargs.max_length + dargs.max_premises,
    ensures
        r == arg_from_index_s(dargs.max_length as int, idx as int),
{
    if idx == 0 {
        TacticArgument::NoArg
    } else if (idx as u64) <= (dargs.max_length as u64) {
        TacticArgument::GoalToken((idx - 1) as usize)
    } else {
        TacticArgument::HypVar((idx as usize) - dargs.max_length - 1)
    }
}

/// The sentinel returned when a goal-token index points past the goal's
/// actual words.
pub open spec fn invalid_sentinel() -> Seq<char> {
    seq!['<', 'I', 'N', 'V', 'A', 'L', 'I', 'D', '>']
}

/// The text a flat index decodes to: nothing for `NoArg`, the goal word (or
/// the sentinel past the goal's end) for a goal token, and the hypothesis's
/// first declared name for a hypothesis variable.
pub open spec fn decode_arg_s(
    max_length: int,
    premises: Seq<Seq<char>>,
    goal: Seq<char>,
    idx: int,
) -> Seq<char> {
    match arg_from_index_s(max_length, idx) {
        TacticArgument::NoArg => Seq::empty(),
        TacticArgument::Unrecognized => Seq::empty(),
        TacticArgument::GoalToken(t) => if t >= words_of(goal).len() {
            invalid_sentinel()
        } else {
            words_of(goal)[t as int]
        },
        TacticArgument::HypVar(h) => first_var_of(premises[h as int]),
    }
}

/// Decodes a predicted argument index back to text against the premise
/// list and goal in force. A hypothesis index past the premise list is the
/// one out-of-range input and is excluded.
pub fn decode_fpa_arg(
    args: &DataloaderArgs,
    premises: &Vec<String>,
    goal: &str,
    arg_idx: i64,
) -> (r: String)
    requires
        args.wf(),
        0 <= arg_idx,
        arg_idx as int <= args.max_length + args.max_premises,
        arg_from_index_s(args.max_length as int, arg_idx as int) matches TacticArgument::HypVar(h)
            ==> h < premises@.len(),
    ensures
        r@ == decode_arg_s(args.max_length as int, premises.deep_view(), goal@, arg_idx as int),
{
    let arg = arg_from_index(args, arg_idx);
    match arg {
        TacticArgument::NoArg => {
            let r = String::new();
            proof {
                assert(r@ =~= Seq::<char>::empty());
            }
            r
        },
        TacticArgument::Unrecognized => {
            let r = String::new();
            proof {
                assert(r@ =~= Seq::<char>::empty());
            }
            r
        },
        TacticArgument::GoalToken(t) => {
            let g = str_chars(goal);
            let ws = get_words(&g);
            if t >= ws.len() {
                let mut v: Vec<char> = Vec::new();
                v.push('<');
                v.push('I');
                v.push('N');
                v.push('V');
                v.push('A');
                v.push('L');
                v.push('I');
                v.push('D');
                v.push('>');
                proof {
                    assert(v@ =~= invalid_sentinel());
                }
                chars_to_string(&v)
            } else {
                proof {
                    assert(ws.deep_view()[t as int] == words_of(goal@)[t as int]);
                    assert(ws@[t as int]@ =~= ws.deep_view()[t as int]);
                }
                chars_to_string(&ws[t])
            }
        },
        TacticArgument::HypVar(h) => {
            let p = str_chars(&premises[h]);
            proof {
                assert(p@ =~= premises.deep_view()[h as int]);
            }
            let v = get_first_var(&p);
            chars_to_string(&v)
        },
    }
}

/// The first goal word among the first `max_length` that matches the
/// argument token, scanning from `i`.
pub open spec fn goal_match_rec(
    goal_words: Seq<Seq<char>>,
    max_length: int,
    tok: Seq<char>,
    i: int,
) -> Option<int>
    decreases goal_words.len() - i,
{
    if i < 0 || i >= goal_words.len() || i >= max_length {
        None
    } else if symbol_match_s(goal_words[i], tok) {
        Some(i)
    } else {
        goal_match_rec(goal_words, max_length, tok, i + 1)
    }
}

/// The first goal-word match for the argument token.
pub open spec fn goal_match(goal: Seq<char>, max_length: int, tok: Seq<char>) -> Option<int> {
    goal_match_rec(words_of(goal), max_length, tok, 0)
}

/// The first premise one of whose declared names equals the argument
/// token, scanning from `h`.
pub open spec fn hyp_match_rec(premises: Seq<Seq<char>>, tok: Seq<char>, h: int) -> Option<int>
    decreases premises.len() - h,
{
    if h < 0 || h >= premises.len() {
        None
    } else if in_list(names_of_hyp(premises[h]), tok) {
        Some(h)
    } else {
        hyp_match_rec(premises, tok, h + 1)
    }
}

/// The first premise whose declared names contain the argument token.
pub open spec fn hyp_match(premises: Seq<Seq<char>>, tok: Seq<char>) -> Option<int> {
    hyp_match_rec(premises, tok, 0)
}

pub proof fn lemma_goal_match_bounds(goal_words: Seq<Seq<char>>, max_length: int, tok: Seq<char>, i: int)
    requires
        0 <= i,
    ensures
        goal_match_rec(goal_words, max_length, tok, i) matches Some(k) ==> i <= k
            < goal_words.len() && k < max_length,
    decreases goal_words.len() - i,
{
    if i < goal_words.len() && i < max_length && !symbol_match_s(goal_words[i], tok) {
        lemma_goal_match_bounds(goal_words, max_length, tok, i + 1);
    }
}

pub proof fn lemma_hyp_match_bounds(premises: Seq<Seq<char>>, tok: Seq<char>, h: int)
    requires
        0 <= h,
    ensures
        hyp_match_rec(premises, tok, h) matches Some(k) ==> h <= k < premises.len(),
    decreases premises.len() - h,
{
    if h < premises.len() && !in_list(names_of_hyp(premises[h]), tok) {
        lemma_hyp_match_bounds(premises, tok, h + 1);
    }
}

/// Finds the first goal-word match for the argument token.
#[verifier::loop_isolation(false)]
pub fn find_goal_match(goal_words: &Vec<Vec<char>>, max_length: usize, tok: &Vec<char>) -> (r: Option<
    usize,
>)
    ensures
        match r {
            Some(k) => k < goal_words@.len() && k < max_length && goal_match_rec(
                goal_words.deep_view(),
                max_length as int,
                tok@,
                0,
            ) == Some(k as int),
            None => goal_match_rec(goal_words.deep_view(), max_length as int, tok@, 0) is None,
        },
{
    let mut i: usize = 0;
    let ghost gw = goal_words.deep_view();
    while i < goal_words.len() && i < max_length
        invariant
            i <= goal_words@.len(),
            goal_match_rec(gw, max_length as int, tok@, 0) == goal_match_rec(
                gw,
                max_length as int,
                tok@,
                i as int,
            ),
        decreases goal_words.len() - i,
    {
        proof {
            assert(gw[i as int] =~= goal_words@[i as int]@);
        }
        if symbol_matches(&goal_words[i], tok) {
            return Some(i);
        }
        i = i + 1;
    }
    None
}

/// Finds the first premise whose declared names contain the argument token.
#[verifier::loop_isolation(false)]
pub fn find_hyp_match(premises: &Vec<String>, tok: &Vec<char>) -> (r: Option<usize>)
    ensures
        match r {
            Some(k) => k < premises@.len() && hyp_match(premises.deep_view(), tok@) == Some(
                k as int,
            ),
            None => hyp_match(premises.deep_view(), tok@) is None,
        },
{
    let ghost pv = premises.deep_view();
    let mut h: usize = 0;
    while h < premises.len()
        invariant
            h <= premises@.len(),
            hyp_match(pv, tok@) == hyp_match_rec(pv, tok@, h as int),
        decreases premises.len() - h,
    {
        proof {
            assert(pv[h as int] =~= premises@[h as int]@);
        }
        let p = str_chars(&premises[h]);
        let names = get_hyp_names(&p);
        let mut j: usize = 0;
        let mut found: bool = false;
        while j < names.len()
            invariant
                j <= names@.len(),
                names.deep_view() == names_of_hyp(pv[h as int]),
                found ==> in_list(names_of_hyp(pv[h as int]), tok@),
                !found ==> forall|m: int|
                    0 <= m < j ==> names.deep_view()[m] != tok@,
            decreases names.len() - j,
        {
            proof {
                assert(names.deep_view()[j as int] =~= names@[j as int]@);
            }
            if crate::text::chars_eq(&names[j], tok) {
                found = true;
                proof {
                    assert(names.deep_view()[j as int] == tok@);
                }
                j = names.len();
            } else {
                j = j + 1;
            }
        }
        if found {
            return Some(h);
        }
        proof {
            assert(!in_list(names_of_hyp(pv[h as int]), tok@));
        }
        h = h + 1;
    }
    None
}

proof fn lemma_goal_match_found(
    goal_words: Seq<Seq<char>>,
    max_length: int,
    tok: Seq<char>,
    t: int,
    i: int,
)
    requires
        0 <= i <= t,
        t < goal_words.len(),
        t < max_length,
        symbol_match_s(goal_words[t], tok),
        forall|j: int| i <= j < t ==> !symbol_match_s(#[trigger] goal_words[j], tok),
    ensures
        goal_match_rec(goal_words, max_length, tok, i) == Some(t),
    decreases t - i,
{
    if i < t {
        lemma_goal_match_found(goal_words, max_length, tok, t, i + 1);
    }
}

proof fn lemma_goal_match_none(goal_words: Seq<Seq<char>>, max_length: int, tok: Seq<char>, i: int)
    requires
        0 <= i,
        forall|j: int|
            i <= j < goal_words.len() && j < max_length ==> !symbol_match_s(
                #[trigger] goal_words[j],
                tok,
            ),
    ensures
        goal_match_rec(goal_words, max_length, tok, i) is None,
    decreases goal_words.len() - i,
{
    if i < goal_words.len() && i < max_length {
        lemma_goal_match_none(goal_words, max_length, tok, i + 1);
    }
}

proof fn lemma_hyp_match_found(premises: Seq<Seq<char>>, tok: Seq<char>, h: int, i: int)
    requires
        0 <= i <= h,
        h < premises.len(),
        in_list(names_of_hyp(premises[h]), tok),
        forall|j: int| i <= j < h ==> !in_list(names_of_hyp(#[trigger] premises[j]), tok),
    ensures
        hyp_match_rec(premises, tok, i) == Some(h),
    decreases h - i,
{
    if i < h {
        lemma_hyp_match_found(premises, tok, h, i + 1);
    }
}

/// The token list of an argument text: its last character (the closing
/// period of the tactic) is dropped, the rest splits at whitespace.
pub open spec fn arg_tokens(arg: Seq<char>) -> Seq<Seq<char>> {
    words_of(arg.take(arg.len() - 1))
}

/// What unbounded argument encoding returns: index zero for an empty
/// argument; an error for several tokens; for one token, the first matching
/// goal word (shifted by one), else the first premise with a matching
/// declared name (shifted past the goal tokens), else an error.
pub open spec fn encode_unbounded_s(
    max_length: int,
    hyps: Seq<Seq<char>>,
    goal: Seq<char>,
    arg: Seq<char>,
) -> Result<int, FpaError> {
    let tokens = arg_tokens(arg);
    if tokens.len() == 0 {
        Ok(0)
    } else if tokens.len() > 1 {
        Err(FpaError::MultiTokenArgument)
    } else {
        match goal_match(goal, max_length, tokens[0]) {
            Some(i) => Ok(i + 1),
            None => match hyp_match(hyps, tokens[0]) {
                Some(h) => Ok(max_length + h + 1),
                None => Err(FpaError::UnrecognizedArgument),
            },
        }
    }
}

/// Law (textual round trip, no-argument case): index zero decodes to the
/// empty argument text, and that text with the closing period encodes back
/// to index zero — the documented collapse end to end.
pub proof fn lemma_decode_encode_no_arg(max_length: int, hyps: Seq<Seq<char>>, goal: Seq<char>)
    ensures
        encode_unbounded_s(
            max_length,
            hyps,
            goal,
            decode_arg_s(max_length, hyps, goal, 0).push('.'),
        ) == Ok::<int, FpaError>(0),
{
    let arg = decode_arg_s(max_length, hyps, goal, 0).push('.');
    assert(arg.take(arg.len() - 1) =~= Seq::<char>::empty());
    assert(arg_tokens(arg) == crate::text::words_of(Seq::<char>::empty()));
    assert(arg_tokens(arg).len() == 0);
}

/// Law (textual round trip, goal-token case): an index that decodes to an
/// existing goal word encodes back to the same index, provided no earlier
/// goal word also matches that word.
pub proof fn lemma_decode_encode_goal_token(
    max_length: int,
    hyps: Seq<Seq<char>>,
    goal: Seq<char>,
    i: int,
)
    requires
        0 < i <= max_length,
        max_length <= usize::MAX,
        i - 1 < words_of(goal).len(),
        forall|j: int|
            0 <= j < i - 1 ==> !symbol_match_s(#[trigger] words_of(goal)[j], words_of(goal)[i - 1]),
    ensures
        encode_unbounded_s(
            max_length,
            hyps,
            goal,
            decode_arg_s(max_length, hyps, goal, i).push('.'),
        ) == Ok::<int, FpaError>(i),
{
    let t = i - 1;
    let w = words_of(goal)[t];
    crate::text::lemma_words_clean(goal);
    assert(crate::text::clean_word(w));
    assert(decode_arg_s(max_length, hyps, goal, i) == w);
    let arg = w.push('.');
    assert(arg.take(arg.len() - 1) =~= w);
    crate::text::lemma_single_word(w);
    assert(arg_tokens(arg) == seq![w]);
    assert(arg_tokens(arg)[0] == w);
    assert(symbol_match_s(w, w));
    lemma_goal_match_found(words_of(goal), max_length, w, t, 0);
}

/// Law (textual round trip, premise case): an index that decodes to a
/// premise's first declared name encodes back to the same index, provided
/// the name is a single proper word, no goal word among the first
/// `max_length` matches it, and no earlier premise declares it.
pub proof fn lemma_decode_encode_hyp_var(
    max_length: int,
    hyps: Seq<Seq<char>>,
    goal: Seq<char>,
    i: int,
)
    requires
        0 <= max_length <= usize::MAX,
        hyps.len() <= usize::MAX,
        max_length < i <= max_length + hyps.len(),
        crate::text::clean_word(first_var_of(hyps[i - max_length - 1])),
        forall|j: int|
            0 <= j < words_of(goal).len() && j < max_length ==> !symbol_match_s(
                #[trigger] words_of(goal)[j],
                first_var_of(hyps[i - max_length - 1]),
            ),
        forall|j: int|
            0 <= j < i - max_length - 1 ==> !in_list(
                names_of_hyp(#[trigger] hyps[j]),
                first_var_of(hyps[i - max_length - 1]),
            ),
    ensures
        encode_unbounded_s(
            max_length,
            hyps,
            goal,
            decode_arg_s(max_length, hyps, goal, i).push('.'),
        ) == Ok::<int, FpaError>(i),
{
    let h = i - max_length - 1;
    let name = first_var_of(hyps[h]);
    assert(decode_arg_s(max_length, hyps, goal, i) == name);
    let arg = name.push('.');
    assert(arg.take(arg.len() - 1) =~= name);
    crate::text::lemma_single_word(name);
    assert(arg_tokens(arg) == seq![name]);
    assert(arg_tokens(arg)[0] == name);
    lemma_goal_match_none(words_of(goal), max_length, name, 0);
    // the name is the first comma piece of the premise's trimmed prefix,
    // and a proper word needs no trimming, so the declared names hold it
    crate::text::lemma_comma_pieces_nonempty(
        crate::text::hyp_name_prefix(hyps[h]),
        Seq::<char>::empty(),
    );
    crate::text::lemma_clean_word_trimmed(name);
    assert(names_of_hyp(hyps[h])[0] == name);
    assert(in_list(names_of_hyp(hyps[h]), name));
    lemma_hyp_match_found(hyps, name, h, 0);
}

/// Encodes a raw argument text against the full premise list, with no
/// subsampling: the deterministic encoding used outside training. Succeeds
/// exactly on an empty argument or a single token that matches a goal word
/// or a declared premise name.
pub fn encode_fpa_arg_unbounded(
    args: &DataloaderArgs,
    hyps: &Vec<String>,
    goal: &str,
    arg: &str,
) -> (r: Result<i64, FpaError>)
    requires
        arg@.len() >= 1,
        args.max_length + hyps@.len() + 1 <= i64::MAX,
    ensures
        match r {
            Ok(v) => encode_unbounded_s(args.max_length as int, hyps.deep_view(), goal@, arg@)
                == Ok::<int, FpaError>(v as int),
            Err(e) => encode_unbounded_s(args.max_length as int, hyps.deep_view(), goal@, arg@)
                == Err::<int, FpaError>(e),
        },
{
    let a = str_chars(arg);
    let body = sub_chars(&a, 0, a.len() - 1);
    proof {
        assert(body@ =~= arg@.take(arg@.len() - 1));
    }
    let tokens = get_words(&body);
    if tokens.len() == 0 {
        return Ok(0);
    }
    if tokens.len() > 1 {
        return Err(FpaError::MultiTokenArgument);
    }
    proof {
        assert(tokens.deep_view()[0] =~= tokens@[0]@);
    }
    let tok = &tokens[0];
    let g = str_chars(goal);
    let goal_words = get_words(&g);
    match find_goal_match(&goal_words, args.max_length, tok) {
        Some(i) => {
            proof {
                lemma_goal_match_bounds(goal_words.deep_view(), args.max_length as int, tok@, 0);
            }
            Ok(i as i64 + 1)
        },
        None => {
            match find_hyp_match(hyps, tok) {
                Some(h) => Ok(args.max_length as i64 + h as i64 + 1),
                None => Err(FpaError::UnrecognizedArgument),
            }
        },
    }
}

} // verus!
