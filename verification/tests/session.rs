use kana_drill::session::{set_exists, StudySession};
use kana_drill::sets::hiragana::HiraganaStudySet;
use kana_drill::sets::katakana::KatakanaStudySet;
use kana_drill::sets::StudySetLoader;

fn hiragana_session() -> StudySession {
    StudySession::new(vec!["hiragana".to_string()]).unwrap()
}

#[test]
fn weights_align_with_items_and_start_at_one() {
    let s = hiragana_session();
    assert_eq!(s.weights.len(), s.items.len());
    assert!(s.weights.iter().all(|&w| w == 1));
    assert!(s.dist.is_some());
}

#[test]
fn empty_set_list_gives_empty_store_and_no_sample() {
    let mut s = StudySession::new(Vec::new()).unwrap();
    assert_eq!(s.items.len(), 0);
    assert_eq!(s.weights.len(), 0);
    assert!(s.dist.is_none());
    assert!(s.sample().is_none());
}

#[test]
fn unresolvable_names_are_skipped() {
    let mut s = StudySession::new(vec!["nonsense".to_string(), "kanji".to_string()]).unwrap();
    assert_eq!(s.items.len(), 0);
    assert_eq!(s.sets.len(), 0);
    assert!(s.sample().is_none());
}

#[test]
fn combined_sets_concatenate_in_request_order() {
    let h = HiraganaStudySet.load();
    let k = KatakanaStudySet.load();
    let s = StudySession::new(vec!["hiragana".to_string(), "katakana".to_string()]).unwrap();
    assert_eq!(s.items.len(), h.len() + k.len());
    assert_eq!(s.sets, vec!["hiragana".to_string(), "katakana".to_string()]);
    for (i, item) in h.iter().enumerate() {
        assert_eq!(s.items[i].front, item.front);
        assert_eq!(s.items[i].back, item.back);
    }
    for (i, item) in k.iter().enumerate() {
        assert_eq!(s.items[h.len() + i].front, item.front);
        assert_eq!(s.items[h.len() + i].back, item.back);
    }
}

#[test]
fn set_exists_knows_the_bundled_sets() {
    assert!(set_exists("hiragana"));
    assert!(set_exists("katakana"));
    assert!(!set_exists("kanji"));
    assert!(!set_exists(""));
}

#[test]
fn increment_bumps_every_weight() {
    let mut s = hiragana_session();
    s.increment().unwrap();
    assert!(s.weights.iter().all(|&w| w == 2));
    s.increment().unwrap();
    assert!(s.weights.iter().all(|&w| w == 3));
}

#[test]
fn reset_sets_one_weight_back_to_one() {
    let mut s = hiragana_session();
    s.increment().unwrap();
    s.increment().unwrap();
    s.reset(3).unwrap();
    for (i, &w) in s.weights.iter().enumerate() {
        assert_eq!(w, if i == 3 { 1 } else { 3 });
    }
}

#[test]
fn reset_out_of_bounds_is_a_no_op() {
    let mut s = hiragana_session();
    s.increment().unwrap();
    let before = s.weights.clone();
    s.reset(s.weights.len()).unwrap();
    s.reset(usize::MAX).unwrap();
    assert_eq!(s.weights, before);
}

#[test]
fn correct_answer_resets_then_increments() {
    let mut s = hiragana_session();
    let expected = s.items[0].back.clone();
    let correct = s.submit_answer(0, &expected).unwrap();
    assert!(correct);
    assert!(s.weights.iter().all(|&w| w == 2));
}

#[test]
fn incorrect_answer_only_increments() {
    let mut s = hiragana_session();
    let correct = s.submit_answer(0, "definitely wrong").unwrap();
    assert!(!correct);
    assert!(s.weights.iter().all(|&w| w == 2));
}

#[test]
fn answer_history_distinguishes_correct_from_incorrect() {
    let mut s = hiragana_session();
    let back0 = s.items[0].back.clone();
    assert!(s.submit_answer(0, &back0).unwrap());
    assert!(s.weights.iter().all(|&w| w == 2));
    assert!(!s.submit_answer(1, "wrong").unwrap());
    assert!(s.weights.iter().all(|&w| w == 3));
    assert!(s.submit_answer(0, &back0).unwrap());
    for (i, &w) in s.weights.iter().enumerate() {
        assert_eq!(w, if i == 0 { 2 } else { 4 });
    }
}

#[test]
fn answers_are_case_sensitive_and_exact() {
    let mut s = hiragana_session();
    // item 0 is the kana for "a"
    assert!(!s.submit_answer(0, "A").unwrap());
    assert!(!s.submit_answer(0, " a").unwrap());
    assert!(s.submit_answer(0, "a").unwrap());
}

#[test]
fn sample_returns_valid_index_and_matching_item() {
    let mut s = hiragana_session();
    for _ in 0..100 {
        let (idx, item) = s.sample().unwrap();
        assert!(idx < s.items.len());
        assert_eq!(item.front, s.items[idx].front);
        assert_eq!(item.back, s.items[idx].back);
    }
}

#[test]
fn sample_does_not_mutate_weights() {
    let mut s = hiragana_session();
    s.increment().unwrap();
    let before = s.weights.clone();
    for _ in 0..20 {
        s.sample().unwrap();
    }
    assert_eq!(s.weights, before);
}

#[test]
fn weights_report_is_sorted_and_complete() {
    let mut s = hiragana_session();
    s.increment().unwrap();
    s.reset(0).unwrap();
    s.reset(5).unwrap();
    let report = s.weights_report();
    assert_eq!(report.len(), s.items.len());
    for pair in report.windows(2) {
        assert!(pair[0].0 >= pair[1].0);
    }
    let mut expected: Vec<(u32, String, String)> = s
        .weights
        .iter()
        .zip(s.items.iter())
        .map(|(&w, item)| (w, item.front.clone(), item.back.clone()))
        .collect();
    let mut got = report.clone();
    expected.sort();
    got.sort();
    assert_eq!(got, expected);
}
