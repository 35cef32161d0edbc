//! Batch assembly: drives the tokenizer, feature extractor and argument
//! encoder over a corpus or a runtime batch, producing positionally aligned
//! tensors, and decodes predicted indices back to tactic text.

use vstd::prelude::*;
use crate::{DataloaderArgs, FpaError, TacticRecord};
use crate::arg_codec::{decode_fpa_arg, decode_arg_s, hyp_match};
use crate::features::{TokenMap, PickleableTokenMap};
use crate::indexer::{OpenIndexer, index_of};
use crate::text::{str_chars, chars_to_string, get_words, words_of};
use crate::tokenizer::{Tokenizer, PickleableTokenizer, tokenize, tokenize_spec, normalize_sentence_length};

verus! {

broadcast use vstd::seq_lib::group_to_multiset_ensures;

/// The metadata bundle that must stay identical between the pass that
/// produced training tensors and any later query pass: the tactic-stem
/// indexer, the tokenizer, and the closed vocabularies.
pub struct FPAMetadata {
    pub indexer: OpenIndexer,
    pub tokenizer: Tokenizer,
    pub tmap: TokenMap,
}

/// Pickled form of the metadata bundle.
pub type PickleableFPAMetadata = (Vec<String>, PickleableTokenizer, PickleableTokenMap);

/// Pickles the metadata bundle as plain ordered string lists.
pub fn fpa_metadata_to_pickleable(metadata: FPAMetadata) -> (r: PickleableFPAMetadata)
    ensures
        r.0.deep_view() == metadata.indexer.strings.deep_view(),
        r.1.0 == metadata.tokenizer.use_unknowns,
        r.1.1 == metadata.tokenizer.num_reserved_tokens,
        r.1.2.deep_view() == metadata.tokenizer.symbols.strings.deep_view(),
        r.2.0.deep_view() == metadata.tmap.tactics.deep_view(),
        r.2.1.deep_view() == metadata.tmap.goal_tokens.deep_view(),
        r.2.2.deep_view() == metadata.tmap.hyp_tokens.deep_view(),
{
    (metadata.indexer.to_list(), metadata.tokenizer.to_pickleable(), metadata.tmap.to_dicts())
}

/// Restores the metadata bundle from its pickled form.
pub fn fpa_metadata_from_pickleable(pick: PickleableFPAMetadata) -> (r: FPAMetadata)
    ensures
        r.indexer.strings == pick.0,
        r.tokenizer.use_unknowns == pick.1.0,
        r.tokenizer.num_reserved_tokens == pick.1.1,
        r.tokenizer.symbols.strings == pick.1.2,
        r.tmap.tactics == pick.2.0,
        r.tmap.goal_tokens == pick.2.1,
        r.tmap.hyp_tokens == pick.2.2,
{
    FPAMetadata {
        indexer: OpenIndexer::from_list(pick.0),
        tokenizer: Tokenizer::from_pickleable(pick.1),
        tmap: TokenMap::from_dicts(pick.2),
    }
}

/// A token-id sequence cut or zero-padded to exactly `len` entries.
pub open spec fn pad_ids(ids: Seq<int>, len: int) -> Seq<int> {
    Seq::new(
        len as nat,
        |i: int|
            if i < ids.len() {
                ids[i]
            } else {
                0
            },
    )
}

/// Tokenizes a text and normalizes the id sequence to `max_length`.
pub fn tokenize_padded(t: &Tokenizer, text: &Vec<char>, max_length: usize) -> (r: Vec<i64>)
    requires
        t.fits_labels(),
    ensures
        r@.map_values(|x: i64| x as int) == pad_ids(tokenize_spec(*t, text@), max_length as int),
        r@.len() == max_length,
{
    let ids = tokenize(t, text);
    let r = normalize_sentence_length(ids, max_length, 0);
    proof {
        assert(r@.map_values(|x: i64| x as int) =~= pad_ids(
            tokenize_spec(*t, text@),
            max_length as int,
        ));
    }
    r
}

/// Whether the text starts with a word character, in the sense of the regex
/// word class.
pub uninterp spec fn word_char_start(s: Seq<char>) -> bool;

/// Relies on `regex::Regex::new` and `Regex::is_match` with the pattern
/// `^\w.*`: whether the text starts with a word character. The pattern is
/// fixed and valid, so compiling it cannot fail.
#[verifier::external_body]
fn starts_with_word_char(s: &str) -> (r: bool)
    ensures
        r == word_char_start(s@),
{
    regex::Regex::new(r"^\w.*").unwrap().is_match(s)
}

/// The goal mask: entry zero is always true (the sentinel for the implicit
/// no-argument slot); entry `i + 1` says whether the i-th goal word exists
/// and starts with a word character.
pub open spec fn goal_mask_spec(goal: Seq<char>, max_length: int) -> Seq<bool> {
    Seq::new(
        (max_length + 1) as nat,
        |i: int|
            if i == 0 {
                true
            } else {
                i - 1 < words_of(goal).len() && word_char_start(words_of(goal)[i - 1])
            },
    )
}

/// Computes the goal mask: always exactly `max_length + 1` entries, the
/// first always true.
#[verifier::loop_isolation(false)]
pub fn get_goal_mask(goal: &str, max_length: usize) -> (r: Vec<bool>)
    requires
        max_length + 1 <= usize::MAX,
    ensures
        r@ == goal_mask_spec(goal@, max_length as int),
        r@.len() == max_length + 1,
        r@[0] == true,
{
    let g = str_chars(goal);
    let ws = get_words(&g);
    let mut r: Vec<bool> = Vec::new();
    r.push(true);
    let mut i: usize = 0;
    while i < max_length
        invariant
            i <= max_length,
            ws.deep_view() == words_of(goal@),
            r@.len() == i + 1,
            forall|k: int| 0 <= k <= i ==> r@[k] == goal_mask_spec(goal@, max_length as int)[k],
        decreases max_length - i,
    {
        if i < ws.len() {
            proof {
                assert(ws@[i as int]@ =~= ws.deep_view()[i as int]);
            }
            let w = chars_to_string(&ws[i]);
            r.push(starts_with_word_char(w.as_str()));
        } else {
            r.push(false);
        }
        i = i + 1;
    }
    proof {
        assert(r@ =~= goal_mask_spec(goal@, max_length as int));
    }
    r
}

/// Decodes a predicted tactic-stem index back to the stem text; an index
/// that was never allocated gives the descriptive out-of-range error.
pub fn decode_fpa_stem(_args: &DataloaderArgs, metadata: &FPAMetadata, tac_idx: i64) -> (r: Result<
    String,
    FpaError,
>)
    ensures
        match r {
            Ok(s) => 0 <= tac_idx < metadata.indexer.strings@.len() && s@
                == metadata.indexer.strings.deep_view()[tac_idx as int],
            Err(e) => !(0 <= tac_idx < metadata.indexer.strings@.len()) && e
                == (FpaError::OutOfRange {
                index: tac_idx,
                size: metadata.indexer.strings@.len() as usize,
            }),
        },
{
    metadata.indexer.reverse_lookup(tac_idx)
}

/// The id that looking a stem up would give: its existing index, or the
/// next free one for an unseen stem.
pub open spec fn stem_id_s(strings: Seq<Seq<char>>, stem: Seq<char>) -> int {
    match index_of(strings, stem) {
        Some(k) => k,
        None => strings.len() as int,
    }
}

/// Encodes a tactic stem as its id without recording an unseen stem: the
/// metadata bundle is read-only outside the corpus-building pass.
pub fn encode_fpa_stem(_args: &DataloaderArgs, metadata: &FPAMetadata, tac_stem: &str) -> (r: i64)
    requires
        metadata.indexer.strings@.len() < i64::MAX,
    ensures
        r as int == stem_id_s(metadata.indexer.strings.deep_view(), tac_stem@),
{
    let c = str_chars(tac_stem);
    match crate::indexer::find_string(&metadata.indexer.strings, &c) {
        Some(k) => k as i64,
        None => metadata.indexer.strings.len() as i64,
    }
}

/// The textual tactic invocation a predicted (stem, argument) index pair
/// decodes to: the stem, the argument text when there is one, and the
/// closing period.
pub open spec fn decode_result_s(
    max_length: int,
    stem: Seq<char>,
    premises: Seq<Seq<char>>,
    goal: Seq<char>,
    arg_idx: int,
) -> Seq<char> {
    let arg = decode_arg_s(max_length, premises, goal, arg_idx);
    if arg.len() == 0 {
        stem + seq!['.']
    } else {
        stem + seq![' '] + arg + seq!['.']
    }
}

/// Decodes a predicted (stem index, argument index) pair back into the
/// textual tactic invocation.
pub fn decode_fpa_result(
    args: &DataloaderArgs,
    metadata: &FPAMetadata,
    premises: &Vec<String>,
    goal: &str,
    tac_idx: i64,
    arg_idx: i64,
) -> (r: Result<String, FpaError>)
    requires
        args.wf(),
        0 <= arg_idx,
        arg_idx as int <= args.max_length + args.max_premises,
        crate::arg_codec::arg_from_index_s(
            args.max_length as int,
            arg_idx as int,
        ) matches crate::arg_codec::TacticArgument::HypVar(h) ==> h < premises@.len(),
    ensures
        match r {
            Ok(s) => 0 <= tac_idx < metadata.indexer.strings@.len() && s@ == decode_result_s(
                args.max_length as int,
                metadata.indexer.strings.deep_view()[tac_idx as int],
                premises.deep_view(),
                goal@,
                arg_idx as int,
            ),
            Err(e) => !(0 <= tac_idx < metadata.indexer.strings@.len()) && e
                == (FpaError::OutOfRange {
                index: tac_idx,
                size: metadata.indexer.strings@.len() as usize,
            }),
        },
{
    let stem = match decode_fpa_stem(args, metadata, tac_idx) {
        Ok(s) => s,
        Err(e) => {
            return Err(e);
        },
    };
    let arg = decode_fpa_arg(args, premises, goal, arg_idx);
    let stem_chars = str_chars(stem.as_str());
    let arg_chars = str_chars(arg.as_str());
    let mut out: Vec<char> = Vec::new();
    let mut i: usize = 0;
    while i < stem_chars.len()
        invariant
            i <= stem_chars@.len(),
            out@ =~= stem_chars@.take(i as int),
        decreases stem_chars.len() - i,
    {
        out.push(stem_chars[i]);
        i = i + 1;
        proof {
            assert(out@ =~= stem_chars@.take(i as int));
        }
    }
    proof {
        assert(out@ =~= stem_chars@);
    }
    if arg_chars.len() > 0 {
        out.push(' ');
        let mut j: usize = 0;
        let ghost before = out@;
        while j < arg_chars.len()
            invariant
                j <= arg_chars@.len(),
                out@ =~= before + arg_chars@.take(j as int),
            decreases arg_chars.len() - j,
        {
            out.push(arg_chars[j]);
            j = j + 1;
            proof {
                assert(out@ =~= before + arg_chars@.take(j as int));
            }
        }
    }
    out.push('.');
    proof {
        if arg_chars@.len() == 0 {
            assert(out@ =~= stem_chars@ + seq!['.']);
        } else {
            assert(arg_chars@.take(arg_chars@.len() as int) =~= arg_chars@);
            assert(out@ =~= stem_chars@ + seq![' '] + arg_chars@ + seq!['.']);
        }
    }
    Ok(chars_to_string(&out))
}

/// Tokenizes one term against the loaded metadata, normalized to the goal
/// length.
pub fn tokenize_fpa(args: &DataloaderArgs, metadata: &FPAMetadata, term: &str) -> (r: Vec<i64>)
    requires
        metadata.tokenizer.fits_labels(),
    ensures
        r@.map_values(|x: i64| x as int) == pad_ids(
            tokenize_spec(metadata.tokenizer, term@),
            args.max_length as int,
        ),
        r@.len() == args.max_length,
{
    let t = str_chars(term);
    tokenize_padded(&metadata.tokenizer, &t, args.max_length)
}

/// Finds the premise one of whose declared names is `hyp_name` and returns
/// its full text; an unknown name is an error (the record promised it).
pub fn lookup_hyp(premises: &Vec<String>, hyp_name: &str) -> (r: Result<String, FpaError>)
    ensures
        match r {
            Ok(s) => hyp_match(premises.deep_view(), hyp_name@) matches Some(h) && s@
                == premises.deep_view()[h],
            Err(e) => hyp_match(premises.deep_view(), hyp_name@) is None && e
                == FpaError::UnrecognizedArgument,
        },
{
    let n = str_chars(hyp_name);
    match crate::arg_codec::find_hyp_match(premises, &n) {
        Some(h) => {
            let s = premises[h].clone();
            proof {
                assert(premises.deep_view()[h as int] == premises@[h as int]@);
            }
            Ok(s)
        },
        None => Err(FpaError::UnrecognizedArgument),
    }
}

/// The number of scalar features attached to each premise: the similarity
/// score and the equality sign.
pub fn get_premise_features_size(_args: &DataloaderArgs, _metadata: &FPAMetadata) -> (r: i64)
    ensures
        r == 2,
{
    2
}

/// Records sorted by weakly descending hypothesis count.
pub open spec fn sorted_by_hyps_desc(rs: Seq<TacticRecord>) -> bool {
    forall|i: int, j: int|
        0 <= i <= j < rs.len() ==> (#[trigger] rs[i]).hypotheses@.len()
            >= (#[trigger] rs[j]).hypotheses@.len()
}

/// Sorts records by descending hypothesis count: a bucketing step with no
/// semantic effect, since every output tensor is permuted identically.
#[verifier::loop_isolation(false)]
pub fn sort_by_hyp_count(records: Vec<TacticRecord>) -> (r: Vec<TacticRecord>)
    ensures
        r@.to_multiset() == records@.to_multiset(),
        r@.len() == records@.len(),
        sorted_by_hyps_desc(r@),
{
    let ghost orig = records@;
    let mut remaining = records;
    let mut r: Vec<TacticRecord> = Vec::new();
    while remaining.len() > 0
        invariant
            r@.to_multiset().add(remaining@.to_multiset()) =~= orig.to_multiset(),
            r@.len() + remaining@.len() == orig.len(),
            sorted_by_hyps_desc(r@),
            forall|i: int, k: int|
                0 <= i < r@.len() && 0 <= k < remaining@.len() ==> (#[trigger] r@[i]).hypotheses@.len()
                    >= (#[trigger] remaining@[k]).hypotheses@.len(),
        decreases remaining.len(),
    {
        let mut best: usize = 0;
        let mut j: usize = 1;
        while j < remaining.len()
            invariant
                best < j <= remaining@.len(),
                forall|k: int|
                    0 <= k < j ==> (#[trigger] remaining@[k]).hypotheses@.len()
                        <= remaining@[best as int].hypotheses@.len(),
            decreases remaining.len() - j,
        {
            if remaining[j].hypotheses.len() > remaining[best].hypotheses.len() {
                best = j;
            }
            j = j + 1;
        }
        let ghost old_rem = remaining@;
        let ghost old_r = r@;
        let picked = remaining.remove(best);
        r.push(picked);
        proof {
            assert(r@.to_multiset() =~= old_r.to_multiset().insert(picked));
            assert(remaining@.to_multiset() =~= old_rem.to_multiset().remove(picked));
            assert(old_rem.to_multiset().count(picked) > 0);
            assert(r@.to_multiset().add(remaining@.to_multiset()) =~= orig.to_multiset());
            assert forall|k: int| 0 <= k < remaining@.len() implies (#[trigger] remaining@[k]).hypotheses@.len()
                <= picked.hypotheses@.len() by {
                if k < best {
                    assert(remaining@[k] == old_rem[k]);
                } else {
                    assert(remaining@[k] == old_rem[k + 1]);
                }
            }
        }
    }
    r
}

/// The two scalar features of one premise: its similarity score against
/// the goal and the equality-hypothesis sign.
pub struct PremiseFeature {
    pub score: crate::similarity::SimScore,
    pub eq_sign: i64,
}

/// What the tokenized premise rows of one record promise: one padded id
/// sequence per premise, computed on the premise's type text.
pub open spec fn premise_tokens_ok(
    tok: Tokenizer,
    max_length: int,
    prems: Seq<Seq<char>>,
    rows: Seq<Vec<i64>>,
) -> bool {
    &&& rows.len() == prems.len()
    &&& forall|j: int|
        0 <= j < prems.len() ==> (#[trigger] rows[j])@.map_values(|x: i64| x as int) == pad_ids(
            tokenize_spec(tok, crate::text::hyp_type_of(prems[j])),
            max_length,
        )
}

/// What the scalar premise features of one record promise: per premise the
/// exact similarity fraction of its type text against the goal, and the
/// equality sign.
pub open spec fn premise_features_ok(
    prems: Seq<Seq<char>>,
    goal: Seq<char>,
    feats: Seq<PremiseFeature>,
) -> bool {
    &&& feats.len() == prems.len()
    &&& forall|j: int|
        0 <= j < prems.len() ==> {
            &&& (#[trigger] feats[j]).score.matched as int == crate::similarity::hyp_sim_matched(
                prems[j],
                goal,
            )
            &&& feats[j].score.total as int == crate::similarity::hyp_sim_total(prems[j], goal)
            &&& feats[j].score.wf()
            &&& feats[j].eq_sign as int == crate::features::equality_feature_s(prems[j], goal)
        }
}

/// Tokenizes and scores every premise of one record.
#[verifier::loop_isolation(false)]
fn premise_rows(tok: &Tokenizer, max_length: usize, prems: &Vec<String>, goal: &str) -> (r: (
    Vec<Vec<i64>>,
    Vec<PremiseFeature>,
))
    requires
        tok.fits_labels(),
        forall|j: int| 0 <= j < prems@.len() ==> #[trigger] prems@[j]@.len() + goal@.len()
            <= usize::MAX,
    ensures
        premise_tokens_ok(*tok, max_length as int, prems.deep_view(), r.0@),
        premise_features_ok(prems.deep_view(), goal@, r.1@),
{
    let g = str_chars(goal);
    let mut trows: Vec<Vec<i64>> = Vec::new();
    let mut feats: Vec<PremiseFeature> = Vec::new();
    let mut j: usize = 0;
    while j < prems.len()
        invariant
            j <= prems@.len(),
            g@ == goal@,
            trows@.len() == j,
            feats@.len() == j,
            forall|m: int|
                0 <= m < j ==> (#[trigger] trows@[m])@.map_values(|x: i64| x as int) == pad_ids(
                    tokenize_spec(*tok, crate::text::hyp_type_of(prems.deep_view()[m])),
                    max_length as int,
                ),
            forall|m: int|
                0 <= m < j ==> {
                    &&& (#[trigger] feats@[m]).score.matched as int
                        == crate::similarity::hyp_sim_matched(prems.deep_view()[m], goal@)
                    &&& feats@[m].score.total as int == crate::similarity::hyp_sim_total(
                        prems.deep_view()[m],
                        goal@,
                    )
                    &&& feats@[m].score.wf()
                    &&& feats@[m].eq_sign as int == crate::features::equality_feature_s(
                        prems.deep_view()[m],
                        goal@,
                    )
                },
        decreases prems.len() - j,
    {
        proof {
            assert(prems@[j as int]@ =~= prems.deep_view()[j as int]);
        }
        let p = str_chars(&prems[j]);
        let ty = crate::text::get_hyp_type(&p);
        let row = tokenize_padded(tok, &ty, max_length);
        trows.push(row);
        let score = crate::similarity::score_hyp(&p, &g);
        let eq = crate::features::equality_hyp_feature(prems[j].as_str(), goal);
        feats.push(PremiseFeature { score, eq_sign: eq });
        j = j + 1;
    }
    (trows, feats)
}

/// What one assembled batch row promises: tokenized premises and their
/// features over the combined premise list, the premise count, the padded
/// goal ids, the goal mask, and the context features.
pub open spec fn batch_row_ok(
    args: DataloaderArgs,
    tok: Tokenizer,
    tmap: TokenMap,
    lemmas: Seq<Seq<char>>,
    prevs: Seq<Seq<char>>,
    hyps: Seq<Seq<char>>,
    goal: Seq<char>,
    trow: Seq<Vec<i64>>,
    frow: Seq<PremiseFeature>,
    num: i64,
    grow: Seq<i64>,
    mask: Seq<bool>,
    wrow: Seq<i64>,
    vrow: crate::similarity::SimScore,
) -> bool {
    let prems = hyps + lemmas;
    &&& premise_tokens_ok(tok, args.max_length as int, prems, trow)
    &&& premise_features_ok(prems, goal, frow)
    &&& num as int == prems.len()
    &&& grow.map_values(|x: i64| x as int) == pad_ids(tokenize_spec(tok, goal), args.max_length as int)
    &&& mask == goal_mask_spec(goal, args.max_length as int)
    &&& crate::features::context_result_ok(tmap, prevs, hyps, goal, wrow, vrow)
}

/// Assembles the tensors of a single query context: one batch row in each
/// output, positionally aligned.
pub fn sample_fpa(
    args: &DataloaderArgs,
    metadata: &FPAMetadata,
    relevant_lemmas: Vec<String>,
    prev_tactics: Vec<String>,
    hypotheses: Vec<String>,
    goal: String,
) -> (r: (
    Vec<Vec<Vec<i64>>>,
    Vec<Vec<PremiseFeature>>,
    Vec<i64>,
    Vec<Vec<i64>>,
    Vec<Vec<bool>>,
    Vec<Vec<i64>>,
    Vec<crate::similarity::SimScore>,
))
    requires
        args.wf(),
        metadata.tokenizer.fits_labels(),
        metadata.tmap.wf(),
        hypotheses@.len() + relevant_lemmas@.len() <= i64::MAX,
        forall|i: int| 0 <= i < hypotheses@.len() ==> #[trigger] hypotheses@[i]@.len() + goal@.len()
            <= usize::MAX,
        forall|i: int| 0 <= i < relevant_lemmas@.len() ==> #[trigger] relevant_lemmas@[i]@.len()
            + goal@.len() <= usize::MAX,
    ensures
        r.0@.len() == 1 && r.1@.len() == 1 && r.2@.len() == 1 && r.3@.len() == 1 && r.4@.len() == 1
            && r.5@.len() == 1 && r.6@.len() == 1,
        batch_row_ok(
            *args,
            metadata.tokenizer,
            metadata.tmap,
            relevant_lemmas.deep_view(),
            prev_tactics.deep_view(),
            hypotheses.deep_view(),
            goal@,
            r.0@[0]@,
            r.1@[0]@,
            r.2@[0],
            r.3@[0]@,
            r.4@[0]@,
            r.5@[0]@,
            r.6@[0],
        ),
{
    let ctxt = crate::TacticContext { relevant_lemmas, prev_tactics, hypotheses, goal };
    let (trow, frow, num, grow, mask, wrow, vrow) = assemble_context_row(args, metadata, &ctxt);
    (
        vec![trow],
        vec![frow],
        vec![num],
        vec![grow],
        vec![mask],
        vec![wrow],
        vec![vrow],
    )
}

/// Assembles the tensors of one query context.
fn assemble_context_row(
    args: &DataloaderArgs,
    metadata: &FPAMetadata,
    ctxt: &crate::TacticContext,
) -> (r: (
    Vec<Vec<i64>>,
    Vec<PremiseFeature>,
    i64,
    Vec<i64>,
    Vec<bool>,
    Vec<i64>,
    crate::similarity::SimScore,
))
    requires
        args.wf(),
        metadata.tokenizer.fits_labels(),
        metadata.tmap.wf(),
        ctxt.hypotheses@.len() + ctxt.relevant_lemmas@.len() <= i64::MAX,
        forall|i: int| 0 <= i < ctxt.hypotheses@.len() ==> #[trigger] ctxt.hypotheses@[i]@.len()
            + ctxt.goal@.len() <= usize::MAX,
        forall|i: int| 0 <= i < ctxt.relevant_lemmas@.len()
            ==> #[trigger] ctxt.relevant_lemmas@[i]@.len() + ctxt.goal@.len() <= usize::MAX,
    ensures
        batch_row_ok(
            *args,
            metadata.tokenizer,
            metadata.tmap,
            ctxt.relevant_lemmas.deep_view(),
            ctxt.prev_tactics.deep_view(),
            ctxt.hypotheses.deep_view(),
            ctxt.goal@,
            r.0@,
            r.1@,
            r.2,
            r.3@,
            r.4@,
            r.5@,
            r.6,
        ),
{
    let mut prems = ctxt.hypotheses.clone();
    proof {
        assert(prems.deep_view() =~~= ctxt.hypotheses.deep_view());
    }
    let mut i: usize = 0;
    while i < ctxt.relevant_lemmas.len()
        invariant
            i <= ctxt.relevant_lemmas@.len(),
            prems.deep_view() =~= ctxt.hypotheses.deep_view()
                + ctxt.relevant_lemmas.deep_view().take(i as int),
        decreases ctxt.relevant_lemmas.len() - i,
    {
        let ghost old_p = prems.deep_view();
        let x = ctxt.relevant_lemmas[i].clone();
        proof {
            assert(x@ == ctxt.relevant_lemmas@[i as int]@);
            assert(ctxt.relevant_lemmas.deep_view()[i as int] == ctxt.relevant_lemmas@[i as int]@);
        }
        prems.push(x);
        i = i + 1;
        proof {
            assert(prems.deep_view() =~~= old_p.push(x@));
            assert(prems.deep_view() =~~= ctxt.hypotheses.deep_view()
                + ctxt.relevant_lemmas.deep_view().take(i as int));
        }
    }
    proof {
        assert(ctxt.relevant_lemmas.deep_view().take(ctxt.relevant_lemmas@.len() as int)
            =~= ctxt.relevant_lemmas.deep_view());
        assert(prems.deep_view() =~= ctxt.hypotheses.deep_view()
            + ctxt.relevant_lemmas.deep_view());
        assert forall|j: int| 0 <= j < prems@.len() implies #[trigger] prems@[j]@.len()
            + ctxt.goal@.len() <= usize::MAX by {
            assert(prems@[j]@ == prems.deep_view()[j]);
            if j < ctxt.hypotheses@.len() {
                assert(prems.deep_view()[j] == ctxt.hypotheses@[j]@);
            } else {
                assert(prems.deep_view()[j] == ctxt.relevant_lemmas@[j
                    - ctxt.hypotheses@.len()]@);
            }
        }
    }
    let (trow, frow) = premise_rows(&metadata.tokenizer, args.max_length, &prems, ctxt.goal.as_str());
    let num: i64 = prems.len() as i64;
    let g = str_chars(ctxt.goal.as_str());
    let grow = tokenize_padded(&metadata.tokenizer, &g, args.max_length);
    let mask = get_goal_mask(ctxt.goal.as_str(), args.max_length);
    let (wrow, vrow) = crate::features::sample_context_features(
        &metadata.tmap,
        &ctxt.relevant_lemmas,
        &ctxt.prev_tactics,
        &ctxt.hypotheses,
        ctxt.goal.as_str(),
    );
    (trow, frow, num, grow, mask, wrow, vrow)
}

/// Assembles the tensors of a batch of query contexts, record by record,
/// positionally aligned with the input.
#[verifier::loop_isolation(false)]
pub fn sample_fpa_batch(
    args: &DataloaderArgs,
    metadata: &FPAMetadata,
    context_batch: Vec<crate::TacticContext>,
) -> (r: (
    Vec<Vec<Vec<i64>>>,
    Vec<Vec<PremiseFeature>>,
    Vec<i64>,
    Vec<Vec<i64>>,
    Vec<Vec<bool>>,
    Vec<Vec<i64>>,
    Vec<crate::similarity::SimScore>,
))
    requires
        args.wf(),
        metadata.tokenizer.fits_labels(),
        metadata.tmap.wf(),
        forall|k: int|
            0 <= k < context_batch@.len() ==> (#[trigger] context_batch@[k]).hypotheses@.len()
                + context_batch@[k].relevant_lemmas@.len() <= i64::MAX,
        forall|k: int, i: int|
            0 <= k < context_batch@.len() && 0 <= i < context_batch@[k].hypotheses@.len() ==> (
            #[trigger] context_batch@[k].hypotheses@[i])@.len() + context_batch@[k].goal@.len()
                <= usize::MAX,
        forall|k: int, i: int|
            0 <= k < context_batch@.len() && 0 <= i < context_batch@[k].relevant_lemmas@.len()
                ==> (#[trigger] context_batch@[k].relevant_lemmas@[i])@.len()
                + context_batch@[k].goal@.len() <= usize::MAX,
    ensures
        r.0@.len() == context_batch@.len() && r.1@.len() == context_batch@.len() && r.2@.len()
            == context_batch@.len() && r.3@.len() == context_batch@.len() && r.4@.len()
            == context_batch@.len() && r.5@.len() == context_batch@.len() && r.6@.len()
            == context_batch@.len(),
        forall|k: int|
            0 <= k < context_batch@.len() ==> batch_row_ok(
                *args,
                metadata.tokenizer,
                metadata.tmap,
                (#[trigger] context_batch@[k]).relevant_lemmas.deep_view(),
                context_batch@[k].prev_tactics.deep_view(),
                context_batch@[k].hypotheses.deep_view(),
                context_batch@[k].goal@,
                r.0@[k]@,
                r.1@[k]@,
                r.2@[k],
                r.3@[k]@,
                r.4@[k]@,
                r.5@[k]@,
                r.6@[k],
            ),
{
    let mut trows: Vec<Vec<Vec<i64>>> = Vec::new();
    let mut frows: Vec<Vec<PremiseFeature>> = Vec::new();
    let mut nums: Vec<i64> = Vec::new();
    let mut grows: Vec<Vec<i64>> = Vec::new();
    let mut masks: Vec<Vec<bool>> = Vec::new();
    let mut wrows: Vec<Vec<i64>> = Vec::new();
    let mut vrows: Vec<crate::similarity::SimScore> = Vec::new();
    let mut k: usize = 0;
    while k < context_batch.len()
        invariant
            k <= context_batch@.len(),
            trows@.len() == k && frows@.len() == k && nums@.len() == k && grows@.len() == k
                && masks@.len() == k && wrows@.len() == k && vrows@.len() == k,
            forall|m: int|
                0 <= m < k ==> batch_row_ok(
                    *args,
                    metadata.tokenizer,
                    metadata.tmap,
                    (#[trigger] context_batch@[m]).relevant_lemmas.deep_view(),
                    context_batch@[m].prev_tactics.deep_view(),
                    context_batch@[m].hypotheses.deep_view(),
                    context_batch@[m].goal@,
                    trows@[m]@,
                    frows@[m]@,
                    nums@[m],
                    grows@[m]@,
                    masks@[m]@,
                    wrows@[m]@,
                    vrows@[m],
                ),
        decreases context_batch.len() - k,
    {
        let (trow, frow, num, grow, mask, wrow, vrow) = assemble_context_row(
            args,
            metadata,
            &context_batch[k],
        );
        trows.push(trow);
        frows.push(frow);
        nums.push(num);
        grows.push(grow);
        masks.push(mask);
        wrows.push(wrow);
        vrows.push(vrow);
        k = k + 1;
    }
    (trows, frows, nums, grows, masks, wrows, vrows)
}

/// One encoded query for the model: per-premise token ids and features, the
/// padded goal ids, and the two categorical feature rows. Scores are kept
/// as exact fractions; the tensor runtime turns them into floats.
pub struct FPAInput {
    pub hypothesis_types: Vec<Vec<i64>>,
    pub hypothesis_features: Vec<PremiseFeature>,
    pub goal: Vec<i64>,
    pub word_features: Vec<usize>,
    pub vec_features: Vec<crate::similarity::SimScore>,
}

/// One prediction of the model: a tactic-stem index and a tactic argument.
pub struct FPAOutput {
    pub tactic: usize,
    pub argument: crate::arg_codec::TacticArgument,
}

/// The nine training tensors, positionally aligned record by record.
pub struct FpaTensors {
    pub tokenized_hyps: Vec<Vec<Vec<i64>>>,
    pub hyp_features: Vec<Vec<PremiseFeature>>,
    pub num_prems: Vec<i64>,
    pub tokenized_goals: Vec<Vec<i64>>,
    pub goal_masks: Vec<Vec<bool>>,
    pub word_features: Vec<Vec<i64>>,
    pub vec_features: Vec<crate::similarity::SimScore>,
    pub tactic_stem_indices: Vec<i64>,
    pub arg_indices: Vec<i64>,
}

/// How a record's argument label and premise selection relate: the label
/// index encodes the classified argument, and when a premise argument
/// forces subsampling, the label points at the premise's surviving
/// position.
pub open spec fn arg_selection_ok(
    args: DataloaderArgs,
    all: Seq<Seq<char>>,
    goal: Seq<char>,
    tactic: Seq<char>,
    sel: Seq<Seq<char>>,
    arg_idx: int,
) -> bool {
    match crate::select::classify_argument(args.max_length as int, all, goal, tactic) {
        Ok(crate::arg_codec::TacticArgument::HypVar(h)) => {
            if all.len() > args.max_premises {
                exists|k: int|
                    0 <= k < sel.len() && arg_idx == k + args.max_length + 1
                        && #[trigger] crate::select::kept_selection_ok(
                        all,
                        args.max_premises as int,
                        sel,
                        k,
                        h as int,
                    )
            } else {
                arg_idx == h + args.max_length + 1 && sel == all
            }
        },
        Ok(other) => arg_idx == crate::arg_codec::arg_index_s(args.max_length as int, other)
            && crate::select::selection_ok(all, args.max_premises as int, sel),
        Err(_) => false,
    }
}

/// What one training row promises, against the returned metadata bundle:
/// the premise count, padded goal ids, goal mask and context features of
/// the record; a stem label that the indexer decodes back to the record's
/// stem; and tokenized premises, premise features and argument label all
/// computed on one valid bounded selection.
pub open spec fn train_row_ok(
    args: DataloaderArgs,
    tok: Tokenizer,
    tmap: TokenMap,
    stems: Seq<Seq<char>>,
    rec: TacticRecord,
    trow: Seq<Vec<i64>>,
    frow: Seq<PremiseFeature>,
    num: i64,
    grow: Seq<i64>,
    mask: Seq<bool>,
    wrow: Seq<i64>,
    vrow: crate::similarity::SimScore,
    stem_idx: i64,
    arg_idx: i64,
) -> bool {
    let all = crate::select::all_premises_s(rec);
    &&& num as int == all.len()
    &&& grow.map_values(|x: i64| x as int) == pad_ids(
        tokenize_spec(tok, rec.goal@),
        args.max_length as int,
    )
    &&& mask == goal_mask_spec(rec.goal@, args.max_length as int)
    &&& crate::features::context_result_ok(
        tmap,
        rec.prev_tactics.deep_view(),
        rec.hypotheses.deep_view(),
        rec.goal@,
        wrow,
        vrow,
    )
    &&& crate::text::stem_of(rec.tactic@) matches Some(st) && 0 <= stem_idx < stems.len()
        && stems[stem_idx as int] == st
    &&& exists|sel: Seq<Seq<char>>|
        #[trigger] premise_tokens_ok(tok, args.max_length as int, sel, trow)
            && premise_features_ok(sel, rec.goal@, frow) && arg_selection_ok(
            args,
            all,
            rec.goal@,
            rec.tactic@,
            sel,
            arg_idx as int,
        )
}

/// The token vocabulary after the build pass reads one record's premise
/// type texts, in order.
pub open spec fn grow_premises(vocab: Seq<Seq<char>>, prems: Seq<Seq<char>>) -> Seq<Seq<char>>
    decreases prems.len(),
{
    if prems.len() == 0 {
        vocab
    } else {
        grow_premises(
            crate::tokenizer::grow_rec(
                vocab,
                crate::text::symbols_of(crate::text::hyp_type_of(prems[0])),
            ),
            prems.drop_first(),
        )
    }
}

/// The token vocabulary after the sequential build pass over the records:
/// per record the goal text, then every premise's type text.
pub open spec fn grow_corpus(vocab: Seq<Seq<char>>, rs: Seq<TacticRecord>) -> Seq<Seq<char>>
    decreases rs.len(),
{
    if rs.len() == 0 {
        vocab
    } else {
        grow_corpus(
            grow_premises(
                crate::tokenizer::grow_rec(vocab, crate::text::symbols_of(rs[0].goal@)),
                crate::select::all_premises_s(rs[0]),
            ),
            rs.drop_first(),
        )
    }
}

/// The token vocabulary the training pass starts from.
pub open spec fn start_tokenizer_vocab(metadata: Option<FPAMetadata>) -> Seq<Seq<char>> {
    match metadata {
        Some(m) => m.tokenizer.symbols.strings.deep_view(),
        None => Seq::empty(),
    }
}

/// The reserved token-id count the training pass starts from.
pub open spec fn start_reserved(metadata: Option<FPAMetadata>) -> int {
    match metadata {
        Some(m) => m.tokenizer.num_reserved_tokens as int,
        None => 2,
    }
}

/// The stem-indexer size the training pass starts from.
pub open spec fn start_indexer_len(metadata: Option<FPAMetadata>) -> int {
    match metadata {
        Some(m) => m.indexer.strings@.len() as int,
        None => 0,
    }
}

/// When the training pass reports a record the upstream filter promised to
/// exclude: a tactic without a stem, or an argument that classifies to the
/// given error.
pub open spec fn record_fails(args: DataloaderArgs, rec: TacticRecord, e: FpaError) -> bool {
    ||| (e == FpaError::UnrecognizedArgument && crate::text::stem_of(rec.tactic@) is None)
    ||| crate::select::classify_argument(
        args.max_length as int,
        crate::select::all_premises_s(rec),
        rec.goal@,
        rec.tactic@,
    ) == Err::<crate::arg_codec::TacticArgument, FpaError>(e)
}

/// When some label of the training pass cannot fit a signed tensor: the
/// stem indexer could outgrow the label range, some record's premise labels
/// would, or the token vocabulary grown over the sorted corpus would.
pub open spec fn labels_overflow(
    args: DataloaderArgs,
    records: Seq<TacticRecord>,
    metadata: Option<FPAMetadata>,
) -> bool {
    ||| start_indexer_len(metadata) + records.len() > i64::MAX
    ||| exists|k: int|
        0 <= k < records.len() && args.max_length + crate::select::all_premises_s(
            #[trigger] records[k],
        ).len() + 1 > i64::MAX
    ||| exists|rs: Seq<TacticRecord>|
        {
            &&& #[trigger] rs.to_multiset() == records.to_multiset()
            &&& sorted_by_hyps_desc(rs)
            &&& {
                let grown = grow_corpus(start_tokenizer_vocab(metadata), rs);
                start_reserved(metadata) + grown.len() > i64::MAX || start_reserved(metadata)
                    + grown.len() > usize::MAX
            }
        }
}

/// What the whole training pass promises on success: a well-formed
/// metadata bundle (freshly built vocabularies when none was given), the
/// feature-space sizes, and nine tensors positionally aligned over some
/// descending-hypothesis-count permutation of the input records, each row
/// satisfying `train_row_ok`.
pub open spec fn tensors_result_ok(
    args: DataloaderArgs,
    records: Seq<TacticRecord>,
    had_metadata: bool,
    meta: FPAMetadata,
    t: FpaTensors,
    sizes: (Vec<i64>, i64),
) -> bool {
    &&& meta.indexer.wf()
    &&& meta.tokenizer.wf()
    &&& meta.tokenizer.fits_labels()
    &&& meta.tmap.wf()
    &&& (!had_metadata ==> crate::vocab::is_top_vocab(
        crate::features::stem_stream(records),
        args.num_keywords as int,
        meta.tmap.tactics.deep_view(),
    ) && crate::vocab::is_top_vocab(
        crate::features::goal_head_stream(records),
        args.num_keywords as int,
        meta.tmap.goal_tokens.deep_view(),
    ) && crate::vocab::is_top_vocab(
        crate::features::hyp_head_stream(records),
        args.num_keywords as int,
        meta.tmap.hyp_tokens.deep_view(),
    ))
    &&& sizes.0@.len() == 3
    &&& sizes.0@[0] as int == meta.tmap.tactics@.len() + 1
    &&& sizes.0@[1] as int == meta.tmap.goal_tokens@.len() + 2
    &&& sizes.0@[2] as int == meta.tmap.hyp_tokens@.len() + 1
    &&& sizes.1 == 1
    &&& exists|rs: Seq<TacticRecord>|
        {
            &&& #[trigger] rs.to_multiset() == records.to_multiset()
            &&& rs.len() == records.len()
            &&& sorted_by_hyps_desc(rs)
            &&& t.tokenized_hyps@.len() == rs.len()
            &&& t.hyp_features@.len() == rs.len()
            &&& t.num_prems@.len() == rs.len()
            &&& t.tokenized_goals@.len() == rs.len()
            &&& t.goal_masks@.len() == rs.len()
            &&& t.word_features@.len() == rs.len()
            &&& t.vec_features@.len() == rs.len()
            &&& t.tactic_stem_indices@.len() == rs.len()
            &&& t.arg_indices@.len() == rs.len()
            &&& forall|k: int|
                0 <= k < rs.len() ==> train_row_ok(
                    args,
                    meta.tokenizer,
                    meta.tmap,
                    meta.indexer.strings.deep_view(),
                    #[trigger] rs[k],
                    t.tokenized_hyps@[k]@,
                    t.hyp_features@[k]@,
                    t.num_prems@[k],
                    t.tokenized_goals@[k]@,
                    t.goal_masks@[k]@,
                    t.word_features@[k]@,
                    t.vec_features@[k],
                    t.tactic_stem_indices@[k],
                    t.arg_indices@[k],
                )
        }
}

/// Turns a whole corpus into training tensors: builds or reuses the
/// metadata bundle, sorts the records by descending hypothesis count,
/// grows the token vocabulary sequentially, and assembles one row per
/// record, with the stem and argument labels. Records the upstream filter
/// should have excluded (a stemless tactic, a multi-token or unmatched
/// argument) and labels too large for a signed tensor surface as errors.
#[verifier::loop_isolation(false)]
#[verifier::rlimit(60)]
pub fn features_polyarg_tensors(
    args: &DataloaderArgs,
    records: Vec<TacticRecord>,
    metadata: Option<FPAMetadata>,
) -> (r: Result<(FPAMetadata, FpaTensors, (Vec<i64>, i64)), FpaError>)
    requires
        args.wf(),
        args.max_premises >= 1,
        args.num_keywords + 2 <= i64::MAX,
        metadata matches Some(m) ==> m.indexer.wf() && m.tokenizer.wf() && m.tmap.wf(),
        forall|k: int| 0 <= k < records@.len() ==> (#[trigger] records@[k]).goal@.len() < usize::MAX,
        forall|k: int, i: int|
            0 <= k < records@.len() && 0 <= i < records@[k].hypotheses@.len() ==> (
            #[trigger] records@[k].hypotheses@[i])@.len() + records@[k].goal@.len() < usize::MAX,
        forall|k: int, i: int|
            0 <= k < records@.len() && 0 <= i < records@[k].relevant_lemmas@.len() ==> (
            #[trigger] records@[k].relevant_lemmas@[i])@.len() + records@[k].goal@.len()
                < usize::MAX,
    ensures
        match r {
            Ok(out) => tensors_result_ok(
                *args,
                records@,
                metadata is Some,
                out.0,
                out.1,
                out.2,
            ),
            Err(e) => {
                ||| ((e == FpaError::MultiTokenArgument || e == FpaError::UnrecognizedArgument)
                    && exists|k: int|
                    0 <= k < records@.len() && record_fails(*args, #[trigger] records@[k], e))
                ||| (e == FpaError::LabelOverflow && labels_overflow(*args, records@, metadata))
            },
        },
{
    let ghost orig = records@;
    let ghost meta0 = metadata;
    let ghost had_metadata = metadata is Some;
    let (indexer, mut tokenizer, tmap) = match metadata {
        Some(m) => (m.indexer, m.tokenizer, m.tmap),
        None => (
            OpenIndexer::new(),
            Tokenizer::new(true, 2),
            TokenMap::initialize(&records, args.num_keywords),
        ),
    };
    let ghost v0 = start_tokenizer_vocab(meta0);
    proof {
        if meta0 is None {
            assert(tokenizer.symbols.strings.deep_view() =~~= v0);
        }
        assert(tokenizer.symbols.strings.deep_view() == v0);
        assert(tokenizer.num_reserved_tokens as int == start_reserved(meta0));
        assert(indexer.strings@.len() as int == start_indexer_len(meta0));
    }
    let sorted = sort_by_hyp_count(records);
    let ghost rs = sorted@;
    proof {
        vstd::seq_lib::lemma_multiset_commutative(rs, Seq::<TacticRecord>::empty());
        assert forall|k: int| 0 <= k < rs.len() implies rs.to_multiset().count(#[trigger] rs[k])
            > 0 by {}
        assert forall|k: int| 0 <= k < rs.len() implies orig.contains(#[trigger] rs[k]) by {
            assert(orig.to_multiset().count(rs[k]) > 0);
        }
    }
    // grow the token vocabulary sequentially, before anything is tokenized
    let mut b: usize = 0;
    proof {
        assert(rs.skip(0) =~= rs);
    }
    while b < sorted.len()
        invariant
            b <= sorted@.len(),
            sorted@ == rs,
            tokenizer.wf(),
            tokenizer.num_reserved_tokens as int == start_reserved(meta0),
            grow_corpus(v0, rs) == grow_corpus(
                tokenizer.symbols.strings.deep_view(),
                rs.skip(b as int),
            ),
        decreases sorted.len() - b,
    {
        let rec = &sorted[b];
        proof {
            assert(rs.skip(b as int)[0] == rs[b as int]);
            assert(rs.skip(b as int).drop_first() =~= rs.skip(b as int + 1));
        }
        let g = str_chars(&rec.goal);
        tokenizer.add_text(&g);
        let prems = crate::select::all_premises(rec);
        let ghost pv = crate::select::all_premises_s(rs[b as int]);
        let mut p: usize = 0;
        proof {
            assert(pv.skip(0) =~= pv);
        }
        while p < prems.len()
            invariant
                p <= prems@.len(),
                prems.deep_view() == pv,
                tokenizer.wf(),
                tokenizer.num_reserved_tokens as int == start_reserved(meta0),
                grow_corpus(v0, rs) == grow_corpus(
                    grow_premises(tokenizer.symbols.strings.deep_view(), pv.skip(p as int)),
                    rs.skip(b as int + 1),
                ),
            decreases prems.len() - p,
        {
            proof {
                assert(pv.skip(p as int)[0] == pv[p as int]);
                assert(pv.skip(p as int).drop_first() =~= pv.skip(p as int + 1));
                assert(prems@[p as int]@ =~= pv[p as int]);
            }
            let pc = str_chars(&prems[p]);
            let ty = crate::text::get_hyp_type(&pc);
            tokenizer.add_text(&ty);
            p = p + 1;
        }
        proof {
            assert(pv.skip(pv.len() as int) =~= Seq::<Seq<char>>::empty());
        }
        b = b + 1;
    }
    proof {
        assert(rs.skip(rs.len() as int) =~= Seq::<TacticRecord>::empty());
        assert(tokenizer.symbols.strings.deep_view() == grow_corpus(v0, rs));
    }
    if tokenizer.num_reserved_tokens as u128 + tokenizer.symbols.strings.len() as u128
        > i64::MAX as u128 || tokenizer.num_reserved_tokens as u128
        + tokenizer.symbols.strings.len() as u128 > usize::MAX as u128 {
        proof {
            assert(grow_corpus(v0, rs).len() == tokenizer.symbols.strings@.len());
            assert(labels_overflow(*args, orig, meta0));
        }
        return Err(FpaError::LabelOverflow);
    }
    // assign the stem labels, growing the indexer
    let mut indexer = indexer;
    if indexer.strings.len() as u128 + sorted.len() as u128 > i64::MAX as u128 {
        proof {
            assert(labels_overflow(*args, orig, meta0));
        }
        return Err(FpaError::LabelOverflow);
    }
    let ghost init_len = indexer.strings@.len();
    let mut stem_ids: Vec<i64> = Vec::new();
    let mut k: usize = 0;
    while k < sorted.len()
        invariant
            k <= sorted@.len(),
            sorted@ == rs,
            indexer.wf(),
            indexer.strings@.len() <= init_len + k,
            init_len + sorted@.len() <= i64::MAX,
            stem_ids@.len() == k,
            forall|m: int|
                0 <= m < k ==> ({
                    &&& 0 <= #[trigger] stem_ids@[m] < indexer.strings@.len()
                    &&& crate::text::stem_of(rs[m].tactic@) matches Some(st)
                        && indexer.strings.deep_view()[stem_ids@[m] as int] == st
                }),
        decreases sorted.len() - k,
    {
        let t = str_chars(&sorted[k].tactic);
        let stem = match crate::text::split_tactic(&t) {
            Some(p) => p.0,
            None => {
                proof {
                    assert(orig.contains(rs[k as int]));
                    let w = choose|w: int| 0 <= w < orig.len() && orig[w] == rs[k as int];
                    assert(record_fails(*args, orig[w], FpaError::UnrecognizedArgument));
                }
                return Err(FpaError::UnrecognizedArgument);
            },
        };
        let ghost old_strings = indexer.strings.deep_view();
        let ghost old_ids = stem_ids@;
        let id = indexer.lookup(chars_to_string(&stem));
        proof {
            crate::indexer::lemma_index_of_rec(old_strings, stem@, 0);
            if index_of(old_strings, stem@) is Some {
                assert(indexer.strings.deep_view() == old_strings);
            } else {
                assert(indexer.strings.deep_view() =~= old_strings.push(stem@));
            }
            assert(indexer.strings.deep_view()[id as int] == stem@);
            assert forall|m2: int|
                0 <= m2 < k implies ({
                &&& 0 <= #[trigger] stem_ids@[m2] < indexer.strings@.len()
                &&& crate::text::stem_of(rs[m2].tactic@) matches Some(st)
                    && indexer.strings.deep_view()[stem_ids@[m2] as int] == st
            }) by {
                assert(stem_ids@[m2] == old_ids[m2]);
                assert(0 <= old_ids[m2] < old_strings.len());
                assert(indexer.strings.deep_view()[old_ids[m2] as int] == old_strings[old_ids[m2] as int]);
            }
        }
        stem_ids.push(id as i64);
        k = k + 1;
    }
    // assemble the per-record rows
    let mut trows: Vec<Vec<Vec<i64>>> = Vec::new();
    let mut frows: Vec<Vec<PremiseFeature>> = Vec::new();
    let mut nums: Vec<i64> = Vec::new();
    let mut grows: Vec<Vec<i64>> = Vec::new();
    let mut masks: Vec<Vec<bool>> = Vec::new();
    let mut wrows: Vec<Vec<i64>> = Vec::new();
    let mut vrows: Vec<crate::similarity::SimScore> = Vec::new();
    let mut arg_ids: Vec<i64> = Vec::new();
    let mut m: usize = 0;
    while m < sorted.len()
        invariant
            m <= sorted@.len(),
            sorted@ == rs,
            forall|k2: int| 0 <= k2 < rs.len() ==> orig.contains(#[trigger] rs[k2]),
            args.wf(),
            args.max_premises >= 1,
            tokenizer.fits_labels(),
            tmap.wf(),
            forall|k2: int| 0 <= k2 < orig.len() ==> (#[trigger] orig[k2]).goal@.len() < usize::MAX,
            forall|k2: int, i: int|
                0 <= k2 < orig.len() && 0 <= i < orig[k2].hypotheses@.len() ==> (
                #[trigger] orig[k2].hypotheses@[i])@.len() + orig[k2].goal@.len() < usize::MAX,
            forall|k2: int, i: int|
                0 <= k2 < orig.len() && 0 <= i < orig[k2].relevant_lemmas@.len() ==> (
                #[trigger] orig[k2].relevant_lemmas@[i])@.len() + orig[k2].goal@.len() < usize::MAX,
            trows@.len() == m && frows@.len() == m && nums@.len() == m && grows@.len() == m
                && masks@.len() == m && wrows@.len() == m && vrows@.len() == m && arg_ids@.len()
                == m,
            forall|k2: int|
                #![trigger rs[k2]]
                0 <= k2 < m ==> {
                    let all = crate::select::all_premises_s(rs[k2]);
                    &&& nums@[k2] as int == all.len()
                    &&& (#[trigger] grows@[k2])@.map_values(|x: i64| x as int) == pad_ids(
                        tokenize_spec(tokenizer, rs[k2].goal@),
                        args.max_length as int,
                    )
                    &&& masks@[k2]@ == goal_mask_spec(rs[k2].goal@, args.max_length as int)
                    &&& crate::features::context_result_ok(
                        tmap,
                        rs[k2].prev_tactics.deep_view(),
                        rs[k2].hypotheses.deep_view(),
                        rs[k2].goal@,
                        wrows@[k2]@,
                        vrows@[k2],
                    )
                    &&& exists|sel: Seq<Seq<char>>|
                        #[trigger] premise_tokens_ok(
                            tokenizer,
                            args.max_length as int,
                            sel,
                            trows@[k2]@,
                        ) && premise_features_ok(sel, rs[k2].goal@, frows@[k2]@)
                            && arg_selection_ok(
                            *args,
                            all,
                            rs[k2].goal@,
                            rs[k2].tactic@,
                            sel,
                            arg_ids@[k2] as int,
                        )
                },
        decreases sorted.len() - m,
    {
        let rec = &sorted[m];
        proof {
            assert(orig.contains(rs[m as int]));
            let ghost w = choose|w: int| 0 <= w < orig.len() && orig[w] == rs[m as int];
            assert(orig[w].goal@.len() < usize::MAX);
        }
        let all = crate::select::all_premises(rec);
        if args.max_length as u128 + all.len() as u128 + 1 > i64::MAX as u128 {
            proof {
                let w = choose|w: int| 0 <= w < orig.len() && orig[w] == rs[m as int];
                assert(args.max_length + crate::select::all_premises_s(orig[w]).len() + 1
                    > i64::MAX);
                assert(labels_overflow(*args, orig, meta0));
            }
            return Err(FpaError::LabelOverflow);
        }
        let (arg, sel) = match crate::select::get_argument(args, rec) {
            Ok(p) => p,
            Err(e) => {
                proof {
                    crate::select::lemma_classify_errors(
                        args.max_length as int,
                        crate::select::all_premises_s(rs[m as int]),
                        rs[m as int].goal@,
                        rs[m as int].tactic@,
                    );
                    let w = choose|w: int| 0 <= w < orig.len() && orig[w] == rs[m as int];
                    assert(record_fails(*args, orig[w], e));
                }
                return Err(e);
            },
        };
        proof {
            let ghost cls = crate::select::classify_argument(
                args.max_length as int,
                crate::select::all_premises_s(rs[m as int]),
                rs[m as int].goal@,
                rs[m as int].tactic@,
            );
            if cls matches Ok(a) && a matches crate::arg_codec::TacticArgument::GoalToken(t) {
                crate::arg_codec::lemma_goal_match_bounds(
                    crate::text::words_of(rs[m as int].goal@),
                    args.max_length as int,
                    crate::text::words_of(
                        crate::text::split_tactic_s(rs[m as int].tactic@)->Some_0.1.take(
                            crate::text::split_tactic_s(rs[m as int].tactic@)->Some_0.1.len() - 1,
                        ),
                    )[0],
                    0,
                );
            }
        }
        proof {
            if arg is HypVar {
                let ghost allv = crate::select::all_premises_s(rs[m as int]);
                let ghost k = arg->HypVar_0;
                assert(k < sel@.len());
                assert(sel@.len() <= args.max_premises || sel.deep_view() == allv);
                assert(k + args.max_length + 1 <= i64::MAX);
            }
        }
        let arg_idx = crate::arg_codec::arg_to_index(args, arg);
        proof {
            // every selected premise text is short enough to score
            let ghost w = choose|w: int| 0 <= w < orig.len() && orig[w] == rs[m as int];
            let ghost allv = crate::select::all_premises_s(rs[m as int]);
            assert forall|j: int| 0 <= j < allv.len() implies #[trigger] allv[j].len() + rs[
                m as int].goal@.len() < usize::MAX by {
                if j < rs[m as int].hypotheses@.len() {
                    assert(allv[j] == orig[w].hypotheses@[j]@);
                } else {
                    assert(allv[j] == orig[w].relevant_lemmas@[j - rs[
                        m as int].hypotheses@.len()]@);
                }
            }
            assert forall|j: int| 0 <= j < sel@.len() implies #[trigger] sel@[j]@.len() + rs[
                m as int].goal@.len() <= usize::MAX by {
                assert(sel@[j]@ == sel.deep_view()[j]);
                if allv.len() == 0 {
                    assert(sel.deep_view() == seq![seq![':']]);
                    assert(sel@.len() == sel.deep_view().len());
                    assert(j == 0);
                    assert(sel.deep_view()[0] == seq![':']);
                    assert(sel.deep_view()[j].len() == 1);
                } else if exists|idxs: Seq<int>|
                    #[trigger] crate::select::valid_selection(
                        allv,
                        args.max_premises as int,
                        sel.deep_view(),
                        idxs,
                    ) {
                    let idxs = choose|idxs: Seq<int>|
                        #[trigger] crate::select::valid_selection(
                            allv,
                            args.max_premises as int,
                            sel.deep_view(),
                            idxs,
                        );
                    assert(sel.deep_view()[j] == allv[idxs[j]]);
                } else {
                    assert(sel.deep_view() == allv);
                }
            }
        }
        let (trow, frow) = premise_rows(&tokenizer, args.max_length, &sel, rec.goal.as_str());
        let num: i64 = all.len() as i64;
        let g = str_chars(&rec.goal);
        let grow = tokenize_padded(&tokenizer, &g, args.max_length);
        let mask = get_goal_mask(rec.goal.as_str(), args.max_length);
        let (wrow, vrow) = crate::features::sample_context_features(
            &tmap,
            &rec.relevant_lemmas,
            &rec.prev_tactics,
            &rec.hypotheses,
            rec.goal.as_str(),
        );
        let ghost old_trows = trows@;
        let ghost old_frows = frows@;
        let ghost old_args = arg_ids@;
        trows.push(trow);
        frows.push(frow);
        nums.push(num);
        grows.push(grow);
        masks.push(mask);
        wrows.push(wrow);
        vrows.push(vrow);
        arg_ids.push(arg_idx);
        proof {
            assert forall|k2: int| #![trigger rs[k2]] 0 <= k2 < m implies exists|sel2: Seq<Seq<char>>|
                #[trigger] premise_tokens_ok(
                    tokenizer,
                    args.max_length as int,
                    sel2,
                    trows@[k2]@,
                ) && premise_features_ok(sel2, rs[k2].goal@, frows@[k2]@) && arg_selection_ok(
                *args,
                crate::select::all_premises_s(rs[k2]),
                rs[k2].goal@,
                rs[k2].tactic@,
                sel2,
                arg_ids@[k2] as int,
            ) by {
                assert(trows@[k2] == old_trows[k2]);
                assert(frows@[k2] == old_frows[k2]);
                assert(arg_ids@[k2] == old_args[k2]);
                let sel2 = choose|sel2: Seq<Seq<char>>|
                    #[trigger] premise_tokens_ok(
                        tokenizer,
                        args.max_length as int,
                        sel2,
                        old_trows[k2]@,
                    ) && premise_features_ok(sel2, rs[k2].goal@, old_frows[k2]@)
                        && arg_selection_ok(
                        *args,
                        crate::select::all_premises_s(rs[k2]),
                        rs[k2].goal@,
                        rs[k2].tactic@,
                        sel2,
                        old_args[k2] as int,
                    );
                assert(premise_tokens_ok(tokenizer, args.max_length as int, sel2, trows@[k2]@));
            }
            assert(trows@[m as int] == trow);
            assert(frows@[m as int] == frow);
            assert(arg_ids@[m as int] == arg_idx);
            assert(premise_tokens_ok(
                tokenizer,
                args.max_length as int,
                sel.deep_view(),
                trows@[m as int]@,
            ));
            assert(premise_features_ok(sel.deep_view(), rs[m as int].goal@, frows@[m as int]@));
            let ghost allv = crate::select::all_premises_s(rs[m as int]);
            let ghost cls = crate::select::classify_argument(
                args.max_length as int,
                allv,
                rs[m as int].goal@,
                rs[m as int].tactic@,
            );
            match cls {
                Ok(a) => {
                    match a {
                        crate::arg_codec::TacticArgument::HypVar(h) => {
                            if allv.len() > args.max_premises {
                                assert(arg matches crate::arg_codec::TacticArgument::HypVar(k)
                                    ==> crate::select::kept_selection_ok(
                                    allv,
                                    args.max_premises as int,
                                    sel.deep_view(),
                                    k as int,
                                    h as int,
                                ) && arg_idx as int == k + args.max_length + 1);
                            } else {
                                assert(arg == crate::arg_codec::TacticArgument::HypVar(h));
                            }
                        },
                        _ => {
                            assert(arg == a);
                        },
                    }
                },
                Err(_) => {
                    assert(false);
                },
            }
            assert(arg_selection_ok(
                *args,
                allv,
                rs[m as int].goal@,
                rs[m as int].tactic@,
                sel.deep_view(),
                arg_ids@[m as int] as int,
            ));
        }
        m = m + 1;
    }
    let sizes = tmap.word_features_sizes();
    let meta = FPAMetadata { indexer, tokenizer, tmap };
    let tensors = FpaTensors {
        tokenized_hyps: trows,
        hyp_features: frows,
        num_prems: nums,
        tokenized_goals: grows,
        goal_masks: masks,
        word_features: wrows,
        vec_features: vrows,
        tactic_stem_indices: stem_ids,
        arg_indices: arg_ids,
    };
    let out_sizes = (sizes, 1i64);
    proof {
        assert(tensors_result_ok(*args, orig, had_metadata, meta, tensors, out_sizes));
    }
    Ok((meta, tensors, out_sizes))
}

} // verus!
