use dataloader::similarity::{
    matching_characters, ratcliff_obershelp_string_similarity, score_hyps, best_scored_hyp,
};

fn chars(s: &str) -> Vec<char> {
    s.chars().collect()
}

#[test]
fn similarity_of_string_with_itself_is_one() {
    let s = ratcliff_obershelp_string_similarity("a + b = c", "a + b = c");
    assert_eq!(s.matched, 9);
    assert_eq!(s.total, 18);
    // score 2 * 9 / 18 == 1.0
    assert_eq!(2.0 * s.matched as f64 / s.total as f64, 1.0);
}

#[test]
fn similarity_of_nonempty_string_with_empty_is_zero() {
    let s = ratcliff_obershelp_string_similarity("abc", "");
    assert_eq!(s.matched, 0);
    assert_eq!(s.total, 3);
    assert_eq!(2.0 * s.matched as f64 / s.total as f64, 0.0);
}

#[test]
fn similarity_stays_in_unit_interval() {
    let pairs = [
        ("Wikimedia", "Wikimania"),
        ("abc", "xyz"),
        ("", ""),
        ("hello world", "world hello"),
        ("eq x y", "x + y = z"),
    ];
    for (a, b) in pairs.iter() {
        let s = ratcliff_obershelp_string_similarity(a, b);
        assert!(2 * s.matched <= s.total);
    }
}

#[test]
fn similarity_known_value() {
    // 2 * 7 / 18 = 0.777... , the classic pattern-matching example
    let s = ratcliff_obershelp_string_similarity("Wikimedia", "Wikimania");
    assert_eq!(s.matched, 7);
    assert_eq!(s.total, 18);
}

#[test]
fn similarity_is_not_symmetric_under_ties() {
    // The scheme picks the first maximal common substring in scan order, so
    // swapping the arguments can change which substrings recurse.
    let m1 = matching_characters(&chars("Ebojfm Mzpm"), &chars("Ebfo ef Mfpo"));
    let m2 = matching_characters(&chars("Ebfo ef Mfpo"), &chars("Ebojfm Mzpm"));
    assert_eq!(m1, 7);
    assert_eq!(m2, 6);
}

#[test]
fn score_hyps_scores_type_text_against_goal() {
    let hyps = vec!["H : a + b".to_string(), "J : zzz".to_string()];
    let scores = score_hyps(&hyps, "a + b");
    assert_eq!(scores.len(), 2);
    // the type text of "H : a + b" is " a + b" (6 chars), goal "a + b" (5)
    assert_eq!(scores[0].matched, 5);
    assert_eq!(scores[0].total, 11);
    // " zzz" and "a + b" share only a one-space substring
    assert_eq!(scores[1].matched, 1);
    assert_eq!(scores[1].total, 9);
}

#[test]
fn best_scored_hyp_picks_lowest_score() {
    // lower similarity wins in this inverted selection
    let hyps = vec!["H : a + b".to_string(), "J : zzz".to_string()];
    let (best, score) = best_scored_hyp(&hyps, "a + b");
    assert_eq!(best, Some(1));
    assert_eq!(score.matched, 1);
    assert_eq!(score.total, 9);
}

#[test]
fn best_scored_hyp_of_empty_list_is_none() {
    let hyps: Vec<String> = Vec::new();
    let (best, score) = best_scored_hyp(&hyps, "goal");
    assert_eq!(best, None);
    assert_eq!(score.matched, 1);
    assert_eq!(score.total, 2);
}
