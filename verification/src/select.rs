//! Training-time argument extraction with bounded-random hypothesis
//! selection: when a record carries more premises than `max_premises`, a
//! random subset is drawn, and when the argument names a premise, that
//! premise is guaranteed to survive the draw at a known (random) position,
//! which becomes the label.
//!
//! The random draws go through two small trusted calls into the rand crate;
//! everything stated here holds of every outcome of those draws.

use vstd::prelude::*;
use crate::{DataloaderArgs, FpaError, TacticRecord};
use crate::arg_codec::{
    TacticArgument, goal_match, hyp_match, find_goal_match, find_hyp_match,
};
use crate::text::{str_chars, chars_to_string, sub_chars, get_words, words_of, split_tactic, split_tactic_s};

verus! {

/// The combined premise list of a record: the focused hypotheses followed
/// by the relevant lemmas.
pub open spec fn all_premises_s(rec: TacticRecord) -> Seq<Seq<char>> {
    rec.hypotheses.deep_view() + rec.relevant_lemmas.deep_view()
}

/// Builds the combined premise list of a record.
#[verifier::loop_isolation(false)]
pub fn all_premises(rec: &TacticRecord) -> (r: Vec<String>)
    ensures
        r.deep_view() == all_premises_s(*rec),
{
    let mut r = rec.hypotheses.clone();
    proof {
        assert(r.deep_view() =~~= rec.hypotheses.deep_view());
    }
    let mut i: usize = 0;
    while i < rec.relevant_lemmas.len()
        invariant
            i <= rec.relevant_lemmas@.len(),
            r.deep_view() =~= rec.hypotheses.deep_view() + rec.relevant_lemmas.deep_view().take(
                i as int,
            ),
        decreases rec.relevant_lemmas.len() - i,
    {
        let ghost old_r = r.deep_view();
        let x = rec.relevant_lemmas[i].clone();
        proof {
            assert(x@ == rec.relevant_lemmas@[i as int]@);
            assert(rec.relevant_lemmas.deep_view()[i as int] == rec.relevant_lemmas@[i as int]@);
        }
        r.push(x);
        i = i + 1;
        proof {
            assert(r.deep_view() =~~= old_r.push(x@));
            assert(r.deep_view() =~~= rec.hypotheses.deep_view()
                + rec.relevant_lemmas.deep_view().take(i as int));
        }
    }
    proof {
        assert(rec.relevant_lemmas.deep_view().take(rec.relevant_lemmas@.len() as int)
            =~= rec.relevant_lemmas.deep_view());
        assert(r.deep_view() =~~= all_premises_s(*rec));
    }
    r
}

/// Relies on `rand::seq::index::sample` with `rand::rng`: exactly `amount`
/// distinct indices drawn from `0..length`, in random order. It panics only
/// when `amount > length`, which the precondition excludes; nothing more is
/// promised of a random draw.
#[verifier::external_body]
fn sample_distinct_indices(length: usize, amount: usize) -> (r: Vec<usize>)
    requires
        amount <= length,
    ensures
        r@.len() == amount,
        forall|i: int| 0 <= i < r@.len() ==> #[trigger] r@[i] < length,
        forall|i: int, j: int| 0 <= i < j < r@.len() ==> r@[i] != r@[j],
{
    rand::seq::index::sample(&mut rand::rng(), length, amount).into_vec()
}

/// Relies on `rand::random_range`: a value of `0..n`. It panics only on an
/// empty range, which the precondition excludes; nothing more is promised
/// of a random draw.
#[verifier::external_body]
fn random_below(n: usize) -> (r: usize)
    requires
        n >= 1,
    ensures
        r < n,
{
    rand::random_range(0..n)
}

/// What a premise selection is: each selected text is the premise at a
/// distinct index of the full list, and the selection has the bounded size
/// (everything when the list fits, `max_premises` otherwise).
pub open spec fn valid_selection(
    all: Seq<Seq<char>>,
    max_premises: int,
    sel: Seq<Seq<char>>,
    idxs: Seq<int>,
) -> bool {
    &&& sel.len() == idxs.len()
    &&& forall|j: int|
        0 <= j < idxs.len() ==> 0 <= #[trigger] idxs[j] < all.len() && sel[j] == all[idxs[j]]
    &&& forall|a: int, b: int| 0 <= a < b < idxs.len() ==> idxs[a] != idxs[b]
    &&& sel.len() == (if all.len() > max_premises {
        max_premises
    } else {
        all.len() as int
    })
}

/// What the selection of a record promises: the placeholder `":"` alone for
/// an empty premise list; the list exactly as given when it fits the bound;
/// else a valid random subset.
pub open spec fn selection_ok(all: Seq<Seq<char>>, max_premises: int, sel: Seq<Seq<char>>) -> bool {
    if all.len() == 0 {
        sel == seq![seq![':']]
    } else if all.len() <= max_premises {
        sel == all
    } else {
        exists|idxs: Seq<int>| #[trigger] valid_selection(all, max_premises, sel, idxs)
    }
}

/// What the positionally constrained selection promises: a valid bounded
/// selection in which position `pos` holds premise `keep` of the full list,
/// and no other position repeats it.
pub open spec fn kept_selection_ok(
    all: Seq<Seq<char>>,
    max_premises: int,
    sel: Seq<Seq<char>>,
    pos: int,
    keep: int,
) -> bool {
    exists|idxs: Seq<int>|
        #[trigger] valid_selection(all, max_premises, sel, idxs) && idxs[pos] == keep
}

/// The placeholder premise used when a record has no premises at all.
fn placeholder_premise() -> (r: Vec<String>)
    ensures
        r.deep_view() =~= seq![seq![':']],
{
    let mut c: Vec<char> = Vec::new();
    c.push(':');
    let mut r: Vec<String> = Vec::new();
    r.push(chars_to_string(&c));
    proof {
        assert(r.deep_view() =~~= seq![seq![':']]);
    }
    r
}

/// Selects premises with no positional constraint: everything when the
/// list fits `max_premises`, a uniform random subset otherwise, and the
/// placeholder for an empty list.
#[verifier::loop_isolation(false)]
pub fn bounded_premises(all: &Vec<String>, max_premises: usize) -> (r: Vec<String>)
    ensures
        selection_ok(all.deep_view(), max_premises as int, r.deep_view()),
{
    let ghost av = all.deep_view();
    if all.len() == 0 {
        placeholder_premise()
    } else if all.len() > max_premises {
        let idxs = sample_distinct_indices(all.len(), max_premises);
        let mut r: Vec<String> = Vec::new();
        let mut j: usize = 0;
        while j < idxs.len()
            invariant
                j <= idxs@.len(),
                r@.len() == j,
                forall|m: int| 0 <= m < j ==> r.deep_view()[m] == av[idxs@[m] as int],
            decreases idxs.len() - j,
        {
            let ghost old_r = r.deep_view();
            let x = all[idxs[j]].clone();
            proof {
                assert(x@ == all@[idxs@[j as int] as int]@);
                assert(av[idxs@[j as int] as int] == all@[idxs@[j as int] as int]@);
            }
            r.push(x);
            proof {
                assert(r.deep_view() =~~= old_r.push(x@));
            }
            j = j + 1;
        }
        proof {
            let ghost gidxs = Seq::new(idxs@.len() as nat, |m: int| idxs@[m] as int);
            assert(valid_selection(av, max_premises as int, r.deep_view(), gidxs));
        }
        r
    } else {
        let r = all.clone();
        proof {
            assert(r.deep_view() =~~= av);
        }
        r
    }
}

/// Selects `max_premises` premises while guaranteeing that premise `keep`
/// survives: `max_premises - 1` others are drawn uniformly without
/// replacement, and `keep` is reinserted at a uniformly random position,
/// which is returned as the new label position.
#[verifier::loop_isolation(false)]
fn bounded_premises_with(all: &Vec<String>, max_premises: usize, keep: usize) -> (r: (
    Vec<String>,
    usize,
))
    requires
        keep < all@.len(),
        all@.len() > max_premises,
        max_premises >= 1,
    ensures
        r.1 < r.0@.len(),
        r.0@.len() == max_premises,
        kept_selection_ok(
            all.deep_view(),
            max_premises as int,
            r.0.deep_view(),
            r.1 as int,
            keep as int,
        ),
{
    let ghost av = all.deep_view();
    let others = sample_distinct_indices(all.len() - 1, max_premises - 1);
    // shift the drawn indices past `keep`, so none of them is `keep`
    let mut shifted: Vec<usize> = Vec::new();
    let mut j: usize = 0;
    while j < others.len()
        invariant
            j <= others@.len(),
            shifted@.len() == j,
            forall|m: int|
                0 <= m < j ==> #[trigger] shifted@[m] == (if others@[m] < keep {
                    others@[m]
                } else {
                    (others@[m] + 1) as usize
                }),
            forall|m: int| 0 <= m < j ==> #[trigger] shifted@[m] < all@.len() && shifted@[m] != keep,
            forall|a: int, b: int| 0 <= a < b < j ==> shifted@[a] != shifted@[b],
        decreases others.len() - j,
    {
        let o = others[j];
        if o < keep {
            shifted.push(o);
        } else {
            shifted.push(o + 1);
        }
        j = j + 1;
    }
    let pos = random_below(max_premises);
    let ghost drawn = shifted@;
    let mut final_idxs: Vec<usize> = Vec::new();
    let mut k: usize = 0;
    while k < max_premises
        invariant
            k <= max_premises,
            final_idxs@.len() == k,
            drawn.len() == max_premises - 1,
            pos < max_premises,
            forall|m: int|
                0 <= m < k ==> #[trigger] final_idxs@[m] == (if m < pos {
                    drawn[m]
                } else if m == pos {
                    keep
                } else {
                    drawn[m - 1]
                }),
        decreases max_premises - k,
    {
        if k == pos {
            final_idxs.push(keep);
        } else if k < pos {
            final_idxs.push(shifted[k]);
        } else {
            final_idxs.push(shifted[k - 1]);
        }
        k = k + 1;
    }
    let shifted = final_idxs;
    proof {
        assert(shifted@[pos as int] == keep);
        assert(shifted@.len() == max_premises);
        assert forall|a: int, b: int| 0 <= a < b < shifted@.len() implies shifted@[a]
            != shifted@[b] by {
            if a != pos && b != pos {
                let a2 = if a < pos { a } else { a - 1 };
                let b2 = if b < pos { b } else { b - 1 };
                assert(drawn[a2] != drawn[b2]);
            }
        }
        assert forall|m: int| 0 <= m < shifted@.len() implies #[trigger] shifted@[m]
            < all@.len() by {}
    }
    let mut sel: Vec<String> = Vec::new();
    let mut m: usize = 0;
    while m < shifted.len()
        invariant
            m <= shifted@.len(),
            sel@.len() == m,
            forall|k: int| 0 <= k < shifted@.len() ==> #[trigger] shifted@[k] < all@.len(),
            forall|k: int| 0 <= k < m ==> sel.deep_view()[k] == av[shifted@[k] as int],
        decreases shifted.len() - m,
    {
        let ghost old_sel = sel.deep_view();
        let x = all[shifted[m]].clone();
        proof {
            assert(x@ == all@[shifted@[m as int] as int]@);
            assert(av[shifted@[m as int] as int] == all@[shifted@[m as int] as int]@);
        }
        sel.push(x);
        proof {
            assert(sel.deep_view() =~~= old_sel.push(x@));
        }
        m = m + 1;
    }
    proof {
        let ghost gidxs = Seq::new(shifted@.len() as nat, |k: int| shifted@[k] as int);
        assert(valid_selection(av, max_premises as int, sel.deep_view(), gidxs));
        assert(gidxs[pos as int] == keep);
        assert(kept_selection_ok(
            all.deep_view(),
            max_premises as int,
            sel.deep_view(),
            pos as int,
            keep as int,
        ));
    }
    (sel, pos)
}

/// The deterministic part of argument extraction: how the record's tactic
/// text classifies against its goal and full premise list. A `HypVar`
/// result names the premise's index in the full list; the random selection
/// then decides where that premise lands.
pub open spec fn classify_argument(
    max_length: int,
    all: Seq<Seq<char>>,
    goal: Seq<char>,
    tactic: Seq<char>,
) -> Result<TacticArgument, FpaError> {
    match split_tactic_s(tactic) {
        None => Ok(TacticArgument::Unrecognized),
        Some(p) => {
            if p.1.len() == 0 {
                Ok(TacticArgument::NoArg)
            } else {
                let tokens = words_of(p.1.take(p.1.len() - 1));
                if tokens.len() == 0 {
                    Ok(TacticArgument::NoArg)
                } else if tokens.len() > 1 {
                    Err(FpaError::MultiTokenArgument)
                } else {
                    match goal_match(goal, max_length, tokens[0]) {
                        Some(i) => Ok(TacticArgument::GoalToken(i as usize)),
                        None => match hyp_match(all, tokens[0]) {
                            Some(h) => Ok(TacticArgument::HypVar(h as usize)),
                            None => Err(FpaError::UnrecognizedArgument),
                        },
                    }
                }
            }
        },
    }
}

/// Law: classification fails only on the two upstream-contract violations —
/// a multi-token argument, or a token matching neither a goal word nor a
/// premise name.
pub proof fn lemma_classify_errors(
    max_length: int,
    all: Seq<Seq<char>>,
    goal: Seq<char>,
    tactic: Seq<char>,
)
    ensures
        classify_argument(max_length, all, goal, tactic) matches Err(e) ==> e
            == FpaError::MultiTokenArgument || e == FpaError::UnrecognizedArgument,
{
}

/// Extracts a record's argument label and its bounded premise selection.
/// When the argument names a premise and the list is subsampled, the label
/// is moved to the premise's surviving position; every other case keeps the
/// classified argument and draws premises with no positional constraint.
/// The two argument errors mark records the upstream filter should have
/// excluded.
pub fn get_argument(args: &DataloaderArgs, scraped: &TacticRecord) -> (r: Result<
    (TacticArgument, Vec<String>),
    FpaError,
>)
    requires
        args.wf(),
        args.max_premises >= 1,
    ensures
        r matches Ok(p) ==> (p.0 is HypVar ==> p.0->HypVar_0 < p.1@.len() && (p.1@.len()
            <= args.max_premises || p.1.deep_view() == all_premises_s(*scraped))),
        ({
            let all = all_premises_s(*scraped);
            let classified = classify_argument(
                args.max_length as int,
                all,
                scraped.goal@,
                scraped.tactic@,
            );
            match r {
                Err(e) => classified == Err::<TacticArgument, FpaError>(e),
                Ok(p) => match classified {
                    Ok(TacticArgument::HypVar(h)) => {
                        if all.len() > args.max_premises {
                            &&& p.0 matches TacticArgument::HypVar(k)
                            &&& p.0 matches TacticArgument::HypVar(k) ==> k < p.1@.len()
                                && kept_selection_ok(
                                all,
                                args.max_premises as int,
                                p.1.deep_view(),
                                k as int,
                                h as int,
                            )
                        } else {
                            p.0 == TacticArgument::HypVar(h) && p.1.deep_view() == all
                        }
                    },
                    Ok(other) => p.0 == other && selection_ok(
                        all,
                        args.max_premises as int,
                        p.1.deep_view(),
                    ),
                    Err(_) => false,
                },
            }
        }),
{
    let all = all_premises(scraped);
    let ghost av = all_premises_s(*scraped);
    let t = str_chars(&scraped.tactic);
    let parts = match split_tactic(&t) {
        None => {
            return Ok((TacticArgument::Unrecognized, bounded_premises(&all, args.max_premises)));
        },
        Some(parts) => parts,
    };
    if parts.1.len() == 0 {
        return Ok((TacticArgument::NoArg, bounded_premises(&all, args.max_premises)));
    }
    let rest = parts.1;
    let body = sub_chars(&rest, 0, rest.len() - 1);
    proof {
        assert(body@ =~= rest@.take(rest@.len() - 1));
    }
    let tokens = get_words(&body);
    if tokens.len() == 0 {
        return Ok((TacticArgument::NoArg, bounded_premises(&all, args.max_premises)));
    }
    if tokens.len() > 1 {
        return Err(FpaError::MultiTokenArgument);
    }
    proof {
        assert(tokens.deep_view()[0] =~= tokens@[0]@);
    }
    let tok = &tokens[0];
    let g = str_chars(&scraped.goal);
    let goal_words = get_words(&g);
    match find_goal_match(&goal_words, args.max_length, tok) {
        Some(i) => {
            return Ok((TacticArgument::GoalToken(i), bounded_premises(&all, args.max_premises)));
        },
        None => {},
    }
    match find_hyp_match(&all, tok) {
        Some(h) => {
            if all.len() > args.max_premises {
                let (sel, pos) = bounded_premises_with(&all, args.max_premises, h);
                Ok((TacticArgument::HypVar(pos), sel))
            } else {
                Ok((TacticArgument::HypVar(h), all))
            }
        },
        None => Err(FpaError::UnrecognizedArgument),
    }
}

} // verus!
