use dataloader::{DataloaderArgs, FpaError, TacticContext, TacticRecord};
use dataloader::arg_codec::{
    TacticArgument, arg_to_index, arg_from_index, decode_fpa_arg, encode_fpa_arg_unbounded,
};
use dataloader::batch::{
    FPAMetadata, decode_fpa_result, decode_fpa_stem, encode_fpa_stem, features_polyarg_tensors,
    fpa_metadata_from_pickleable, fpa_metadata_to_pickleable, get_goal_mask,
    get_premise_features_size, lookup_hyp, sample_fpa, sample_fpa_batch, sort_by_hyp_count,
    tokenize_fpa,
};
use dataloader::features::{
    TokenMap, context_features, equality_hyp_feature, goal_head_feature, hyp_head_feature,
    prev_tactic_feature, sample_context_features,
};
use dataloader::fpa_get_num_possible_args;
use dataloader::indexer::OpenIndexer;
use dataloader::select::get_argument;
use dataloader::tokenizer::Tokenizer;
use dataloader::vocab::index_common;

fn args(max_length: usize, max_premises: usize, num_keywords: usize) -> DataloaderArgs {
    DataloaderArgs { max_length, max_premises, num_keywords }
}

fn record(
    goal: &str,
    hyps: &[&str],
    lemmas: &[&str],
    prevs: &[&str],
    tactic: &str,
) -> TacticRecord {
    TacticRecord {
        relevant_lemmas: lemmas.iter().map(|s| s.to_string()).collect(),
        prev_tactics: prevs.iter().map(|s| s.to_string()).collect(),
        hypotheses: hyps.iter().map(|s| s.to_string()).collect(),
        goal: goal.to_string(),
        tactic: tactic.to_string(),
    }
}

#[test]
fn argument_index_space_size() {
    let a = args(5, 3, 10);
    assert_eq!(fpa_get_num_possible_args(&a), 9);
}

#[test]
fn argument_index_round_trip() {
    let a = args(5, 3, 10);
    for i in 0..=8i64 {
        let arg = arg_from_index(&a, i);
        assert_eq!(arg_to_index(&a, arg), i);
    }
    // the documented collapse: zero always decodes to NoArg
    assert!(matches!(arg_from_index(&a, 0), TacticArgument::NoArg));
    assert_eq!(arg_to_index(&a, TacticArgument::Unrecognized), 0);
}

#[test]
fn goal_mask_shape_and_sentinel() {
    let mask = get_goal_mask("a + b = c", 5);
    assert_eq!(mask.len(), 6);
    assert!(mask[0]);
    assert_eq!(mask, vec![true, true, false, true, false, true]);
}

#[test]
fn goal_mask_pads_with_false() {
    let mask = get_goal_mask("x", 3);
    assert_eq!(mask, vec![true, true, false, false]);
}

#[test]
fn equality_feature_signs() {
    // goal contains the left side of the equality
    assert_eq!(equality_hyp_feature("H : eq x y", "x + 1 = 0"), -1);
    // goal contains only the right side
    assert_eq!(equality_hyp_feature("H : eq x y", "y + 1 = 0"), 1);
    // goal contains neither side
    assert_eq!(equality_hyp_feature("H : eq x y", "q + 1 = 0"), 0);
    // not an equality hypothesis at all
    assert_eq!(equality_hyp_feature("H : lt x y", "x + 1 = 0"), 0);
}

#[test]
fn encode_goal_token_argument() {
    let a = args(5, 3, 10);
    let hyps: Vec<String> = Vec::new();
    let r = encode_fpa_arg_unbounded(&a, &hyps, "x + y = z", "x.");
    assert_eq!(r, Ok(1));
}

#[test]
fn encode_hypothesis_argument() {
    let a = args(2, 3, 10);
    let hyps = vec!["H : nat".to_string(), "J, K : bool".to_string()];
    // "K" is a declared name of the second hypothesis
    let r = encode_fpa_arg_unbounded(&a, &hyps, "x + y = z", "K.");
    assert_eq!(r, Ok(2 + 1 + 1));
}

#[test]
fn encode_empty_argument_is_index_zero() {
    let a = args(5, 3, 10);
    let hyps: Vec<String> = Vec::new();
    assert_eq!(encode_fpa_arg_unbounded(&a, &hyps, "x", "."), Ok(0));
}

#[test]
fn encode_multi_token_argument_is_an_error() {
    let a = args(5, 3, 10);
    let hyps: Vec<String> = Vec::new();
    let r = encode_fpa_arg_unbounded(&a, &hyps, "x + y = z", "a b.");
    assert_eq!(r, Err(FpaError::MultiTokenArgument));
}

#[test]
fn encode_unknown_argument_is_an_error() {
    let a = args(5, 3, 10);
    let hyps = vec!["H : nat".to_string()];
    let r = encode_fpa_arg_unbounded(&a, &hyps, "x + y = z", "qq.");
    assert_eq!(r, Err(FpaError::UnrecognizedArgument));
}

#[test]
fn decode_goal_token_and_names() {
    let a = args(5, 3, 10);
    let premises = vec!["J, K : bool".to_string()];
    assert_eq!(decode_fpa_arg(&a, &premises, "x + y = z", 0), "");
    assert_eq!(decode_fpa_arg(&a, &premises, "x + y = z", 1), "x");
    assert_eq!(decode_fpa_arg(&a, &premises, "x + y = z", 3), "y");
    // goal-token index past the goal's words gives the sentinel
    assert_eq!(decode_fpa_arg(&a, &premises, "x", 4), "<INVALID>");
    // hypothesis variable decodes to the first declared name
    assert_eq!(decode_fpa_arg(&a, &premises, "x + y = z", 6), "J");
}

#[test]
fn indexer_round_trip_and_out_of_range() {
    let mut ix = OpenIndexer::new();
    assert_eq!(ix.lookup("intro".to_string()), 0);
    assert_eq!(ix.lookup("apply".to_string()), 1);
    assert_eq!(ix.lookup("intro".to_string()), 0);
    assert_eq!(ix.reverse_lookup(1), Ok("apply".to_string()));
    assert_eq!(ix.reverse_lookup(7), Err(FpaError::OutOfRange { index: 7, size: 2 }));
    assert_eq!(ix.reverse_lookup(-1), Err(FpaError::OutOfRange { index: -1, size: 2 }));
}

#[test]
fn index_common_keeps_most_frequent() {
    let items: Vec<String> = ["a", "b", "a", "c", "a", "b"].iter().map(|s| s.to_string()).collect();
    let top = index_common(&items, 2);
    assert_eq!(top, vec!["a".to_string(), "b".to_string()]);
    let all = index_common(&items, 10);
    assert_eq!(all.len(), 3);
    assert_eq!(all[0], "a");
}

#[test]
fn token_map_features() {
    let data = vec![
        record("cons x xs", &["H : nat", "H2 : bool"], &[], &[], "apply H."),
        record("cons y ys", &["H : nat"], &[], &[], "apply x."),
        record("nil", &["J : nat"], &[], &[], "intro."),
    ];
    let tmap = TokenMap::initialize(&data, 10);
    // "apply" is the most frequent stem, so it has index 0
    assert_eq!(prev_tactic_feature(&tmap, &vec!["apply H.".to_string()]), 1);
    assert_eq!(prev_tactic_feature(&tmap, &vec![]), 0);
    assert_eq!(prev_tactic_feature(&tmap, &vec!["unknown_tac x.".to_string()]), 0);
    // "cons" is the most frequent goal head, index 0 -> feature 2
    assert_eq!(goal_head_feature(&tmap, "cons a b"), 2);
    assert_eq!(goal_head_feature(&tmap, ""), 0);
    assert_eq!(goal_head_feature(&tmap, "unseen head"), 1);
    // "H" is the most frequent hypothesis head, index 0 -> feature 1
    assert_eq!(hyp_head_feature(&tmap, "H : nat"), 1);
    assert_eq!(hyp_head_feature(&tmap, ""), 0);
    let sizes = tmap.word_features_sizes();
    assert_eq!(sizes.len(), 3);
}

#[test]
fn token_map_save_load_round_trip() {
    let data = vec![
        record("cons x xs", &["H : nat"], &[], &[], "apply H."),
        record("nil", &["J : nat"], &[], &[], "intro."),
    ];
    let tmap = TokenMap::initialize(&data, 10);
    let dicts = tmap.to_dicts();
    // persist through the human-readable text format and back
    let json = serde_json::to_string(&vec![dicts.0.clone(), dicts.1.clone(), dicts.2.clone()])
        .unwrap();
    let lists: Vec<Vec<String>> = serde_json::from_str(&json).unwrap();
    let tmap2 = TokenMap::from_dicts((lists[0].clone(), lists[1].clone(), lists[2].clone()));
    assert_eq!(tmap2.word_features_sizes(), tmap.word_features_sizes());
    for goal in ["cons a", "nil", "other"].iter() {
        assert_eq!(goal_head_feature(&tmap2, goal), goal_head_feature(&tmap, goal));
    }
    for hyp in ["H : nat", "J : nat", "Q : x"].iter() {
        assert_eq!(hyp_head_feature(&tmap2, hyp), hyp_head_feature(&tmap, hyp));
    }
}

#[test]
fn bounded_selection_keeps_the_named_hypothesis() {
    let a = args(2, 2, 10);
    let rec = record(
        "goal_token",
        &["H1 : A", "H2 : B", "H3 : C", "H4 : D", "H5 : E"],
        &[],
        &[],
        "apply H3.",
    );
    for _ in 0..32 {
        let (arg, sel) = get_argument(&a, &rec).unwrap();
        assert_eq!(sel.len(), 2);
        match arg {
            TacticArgument::HypVar(k) => {
                assert!(k < sel.len());
                assert_eq!(sel[k], "H3 : C");
                // the named hypothesis survives exactly once
                assert_eq!(sel.iter().filter(|h| h.as_str() == "H3 : C").count(), 1);
            },
            other => panic!("expected a hypothesis argument, got {:?}", other),
        }
    }
}

#[test]
fn empty_hypothesis_list_gets_placeholder() {
    let a = args(2, 2, 10);
    let rec = record("some goal", &[], &[], &[], "auto.");
    let (arg, sel) = get_argument(&a, &rec).unwrap();
    assert!(matches!(arg, TacticArgument::NoArg));
    assert_eq!(sel, vec![":".to_string()]);
    assert_eq!(sel.len(), 1);
}

#[test]
fn small_hypothesis_list_is_kept_whole() {
    let a = args(2, 5, 10);
    let rec = record("g", &["H1 : A", "H2 : B"], &["lemma_one : L"], &[], "apply H2.");
    let (arg, sel) = get_argument(&a, &rec).unwrap();
    assert_eq!(sel.len(), 3);
    assert!(matches!(arg, TacticArgument::HypVar(1)));
}

#[test]
fn get_argument_rejects_multi_token() {
    let a = args(2, 2, 10);
    let rec = record("g", &["H : A"], &[], &[], "rewrite a b.");
    assert_eq!(get_argument(&a, &rec), Err(FpaError::MultiTokenArgument));
}

#[test]
fn tokenizer_and_metadata_round_trip() {
    let mut tok = Tokenizer::new(true, 2);
    tok.add_text(&"cons x xs".chars().collect());
    let meta = FPAMetadata {
        indexer: OpenIndexer::from_list(vec!["apply".to_string()]),
        tokenizer: tok,
        tmap: TokenMap::from_dicts((vec![], vec![], vec![])),
    };
    let pick = fpa_metadata_to_pickleable(meta);
    let meta2 = fpa_metadata_from_pickleable(pick);
    let a = args(4, 2, 10);
    // first real token sits right after the two reserved ids; unseen maps to 1
    let ids = tokenize_fpa(&a, &meta2, "cons zz xs");
    assert_eq!(ids, vec![2, 1, 4, 0]);
    assert_eq!(decode_fpa_stem(&a, &meta2, 0), Ok("apply".to_string()));
    assert!(decode_fpa_stem(&a, &meta2, 3).is_err());
    assert_eq!(encode_fpa_stem(&a, &meta2, "apply"), 0);
    assert_eq!(encode_fpa_stem(&a, &meta2, "intro"), 1);
}

#[test]
fn decode_result_formats_tactic_text() {
    let a = args(5, 3, 10);
    let meta = FPAMetadata {
        indexer: OpenIndexer::from_list(vec!["apply".to_string(), "auto".to_string()]),
        tokenizer: Tokenizer::new(true, 2),
        tmap: TokenMap::from_dicts((vec![], vec![], vec![])),
    };
    let premises = vec!["H : nat".to_string()];
    assert_eq!(
        decode_fpa_result(&a, &meta, &premises, "x + y = z", 0, 1),
        Ok("apply x.".to_string())
    );
    assert_eq!(decode_fpa_result(&a, &meta, &premises, "x + y = z", 1, 0), Ok("auto.".to_string()));
    assert_eq!(
        decode_fpa_result(&a, &meta, &premises, "x + y = z", 6, 0),
        Err(FpaError::OutOfRange { index: 6, size: 2 })
    );
}

#[test]
fn lookup_hyp_finds_by_declared_name() {
    let premises = vec!["H : nat".to_string(), "J, K : bool".to_string()];
    assert_eq!(lookup_hyp(&premises, "K"), Ok("J, K : bool".to_string()));
    assert_eq!(lookup_hyp(&premises, "Z"), Err(FpaError::UnrecognizedArgument));
}

#[test]
fn sort_orders_by_descending_hypothesis_count() {
    let records = vec![
        record("g1", &["H : A"], &[], &[], "auto."),
        record("g2", &["H : A", "J : B", "K : C"], &[], &[], "auto."),
        record("g3", &[], &[], &[], "auto."),
    ];
    let sorted = sort_by_hyp_count(records);
    assert_eq!(sorted.len(), 3);
    assert_eq!(sorted[0].goal, "g2");
    assert_eq!(sorted[1].goal, "g1");
    assert_eq!(sorted[2].goal, "g3");
}

#[test]
fn sample_context_features_shape() {
    let data = vec![record("cons x", &["H : nat"], &[], &[], "apply H.")];
    let tmap = TokenMap::initialize(&data, 10);
    let (word, score) = sample_context_features(
        &tmap,
        &vec![],
        &vec!["apply H.".to_string()],
        &vec!["H : nat".to_string()],
        "cons x",
    );
    assert_eq!(word.len(), 3);
    assert_eq!(word[0], 1);
    assert_eq!(word[1], 2);
    assert!(2 * score.matched <= score.total);
}

#[test]
fn context_features_aligns_rows_with_records() {
    let data = vec![
        record("cons x", &["H : nat"], &[], &[], "apply H."),
        record("nil", &[], &[], &[], "auto."),
    ];
    let tmap = TokenMap::initialize(&data, 10);
    let (words, scores) = context_features(&tmap, &data);
    assert_eq!(words.len(), 2);
    assert_eq!(scores.len(), 2);
    assert_eq!(words[0].len(), 3);
    // the record without hypotheses has no best hypothesis
    assert_eq!(words[1][2], 0);
}

#[test]
fn sample_fpa_single_row_shapes() {
    let a = args(3, 4, 10);
    let meta = FPAMetadata {
        indexer: OpenIndexer::new(),
        tokenizer: Tokenizer::new(true, 2),
        tmap: TokenMap::from_dicts((vec![], vec![], vec![])),
    };
    let (tprems, feats, nums, tgoals, masks, words, vecs) = sample_fpa(
        &a,
        &meta,
        vec!["lem : L".to_string()],
        vec![],
        vec!["H : nat".to_string()],
        "x + y".to_string(),
    );
    assert_eq!(tprems.len(), 1);
    assert_eq!(tprems[0].len(), 2);
    assert_eq!(tprems[0][0].len(), 3);
    assert_eq!(feats[0].len(), 2);
    assert_eq!(nums, vec![2]);
    assert_eq!(tgoals[0].len(), 3);
    assert_eq!(masks[0].len(), 4);
    assert_eq!(words[0].len(), 3);
    assert_eq!(vecs.len(), 1);
}

#[test]
fn sample_fpa_batch_aligns_with_input() {
    let a = args(3, 4, 10);
    let meta = FPAMetadata {
        indexer: OpenIndexer::new(),
        tokenizer: Tokenizer::new(true, 2),
        tmap: TokenMap::from_dicts((vec![], vec![], vec![])),
    };
    let batch = vec![
        TacticContext {
            relevant_lemmas: vec![],
            prev_tactics: vec![],
            hypotheses: vec!["H : nat".to_string()],
            goal: "x".to_string(),
        },
        TacticContext {
            relevant_lemmas: vec![],
            prev_tactics: vec![],
            hypotheses: vec![],
            goal: "y z".to_string(),
        },
    ];
    let (tprems, feats, nums, tgoals, masks, words, vecs) = sample_fpa_batch(&a, &meta, batch);
    assert_eq!(tprems.len(), 2);
    assert_eq!(feats.len(), 2);
    assert_eq!(nums, vec![1, 0]);
    assert_eq!(tgoals.len(), 2);
    assert_eq!(masks.len(), 2);
    assert_eq!(words.len(), 2);
    assert_eq!(vecs.len(), 2);
}

#[test]
fn features_polyarg_tensors_end_to_end() {
    let a = args(4, 3, 10);
    let records = vec![
        record("cons x xs", &["H : nat", "J : bool"], &[], &[], "apply H."),
        record("nil", &[], &[], &["apply H."], "auto."),
    ];
    let (meta, tensors, (sizes, vec_size)) =
        features_polyarg_tensors(&a, records, None).unwrap();
    assert_eq!(tensors.tokenized_hyps.len(), 2);
    assert_eq!(tensors.hyp_features.len(), 2);
    assert_eq!(tensors.num_prems, vec![2, 0]);
    assert_eq!(tensors.tokenized_goals.len(), 2);
    assert_eq!(tensors.tokenized_goals[0].len(), 4);
    assert_eq!(tensors.goal_masks[0].len(), 5);
    assert!(tensors.goal_masks[1][0]);
    assert_eq!(tensors.word_features.len(), 2);
    assert_eq!(tensors.vec_features.len(), 2);
    assert_eq!(tensors.tactic_stem_indices.len(), 2);
    assert_eq!(tensors.arg_indices.len(), 2);
    // the sorted order puts the two-hypothesis record first
    assert_eq!(tensors.arg_indices[0], 4 + 0 + 1);
    assert_eq!(tensors.arg_indices[1], 0);
    // both stems decode back
    let s0 = decode_fpa_stem(&a, &meta, tensors.tactic_stem_indices[0]).unwrap();
    assert_eq!(s0, "apply");
    assert_eq!(sizes.len(), 3);
    assert_eq!(vec_size, 1);
    assert_eq!(get_premise_features_size(&a, &meta), 2);
}

#[test]
fn features_polyarg_tensors_rejects_bad_records() {
    let a = args(4, 3, 10);
    let records = vec![record("g", &["H : A"], &[], &[], "rewrite a b.")];
    match features_polyarg_tensors(&a, records, None) {
        Err(e) => assert_eq!(e, FpaError::MultiTokenArgument),
        Ok(_) => panic!("a multi-token argument must be rejected"),
    }
    let records2 = vec![record("g", &["H : A"], &[], &[], "apply zz.")];
    match features_polyarg_tensors(&a, records2, None) {
        Err(e) => assert_eq!(e, FpaError::UnrecognizedArgument),
        Ok(_) => panic!("an unmatched argument must be rejected"),
    }
}

#[test]
fn goal_symbol_matches_after_stripping_decoration() {
    let a = args(5, 3, 10);
    let hyps: Vec<String> = Vec::new();
    // the goal word "(x)" matches the bare argument token "x"
    let r = encode_fpa_arg_unbounded(&a, &hyps, "(x) + y", "x.");
    assert_eq!(r, Ok(1));
}

#[test]
fn equality_feature_handles_parenthesized_sides() {
    assert_eq!(equality_hyp_feature("H : eq (f x) y", "goal with (f x) inside"), -1);
    assert_eq!(equality_hyp_feature("H : eq (f x) y", "goal with y inside"), 1);
}

#[test]
fn goal_mask_truncates_long_goals() {
    let mask = get_goal_mask("a b c d e", 2);
    assert_eq!(mask, vec![true, true, true]);
}

#[test]
fn tokenizer_without_unknowns_skips_unseen_tokens() {
    let mut tok = Tokenizer::new(false, 2);
    tok.add_text(&"cons x".chars().collect());
    let ids = dataloader::tokenizer::tokenize(&tok, &"cons zz x".chars().collect());
    assert_eq!(ids, vec![2, 3]);
    let mut tok2 = Tokenizer::new(true, 2);
    tok2.add_text(&"cons x".chars().collect());
    let ids2 = dataloader::tokenizer::tokenize(&tok2, &"cons zz x".chars().collect());
    assert_eq!(ids2, vec![2, 1, 3]);
}

#[test]
fn tokenize_fpa_truncates_to_goal_length() {
    let mut tok = Tokenizer::new(true, 2);
    tok.add_text(&"a b c d e".chars().collect());
    let meta = FPAMetadata {
        indexer: OpenIndexer::new(),
        tokenizer: tok,
        tmap: TokenMap::from_dicts((vec![], vec![], vec![])),
    };
    let a = args(3, 2, 10);
    assert_eq!(tokenize_fpa(&a, &meta, "a b c d e"), vec![2, 3, 4]);
}

#[test]
fn oversized_label_space_is_reported() {
    let a = args((i64::MAX as usize) - 2, 1, 10);
    let records = vec![record("g", &["H : A", "J : B"], &[], &[], "auto.")];
    match features_polyarg_tensors(&a, records, None) {
        Err(e) => assert_eq!(e, FpaError::LabelOverflow),
        Ok(_) => panic!("an overflowing premise label must be rejected"),
    }
}

#[test]
fn single_and_corpus_featurization_agree() {
    let data = vec![
        record("cons x", &["H : nat", "J : cons x"], &[], &["apply H."], "apply H."),
        record("cons x", &["A : q", "B : q"], &[], &[], "auto."),
    ];
    let tmap = TokenMap::initialize(&data, 10);
    let (words, scores) = context_features(&tmap, &data);
    for (k, rec) in data.iter().enumerate() {
        let (word, score) = sample_context_features(
            &tmap,
            &rec.relevant_lemmas,
            &rec.prev_tactics,
            &rec.hypotheses,
            rec.goal.as_str(),
        );
        assert_eq!(words[k], word);
        assert_eq!(scores[k].matched, score.matched);
        assert_eq!(scores[k].total, score.total);
    }
}
