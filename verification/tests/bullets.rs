use lfc::ai_deduplicator::{
    apply_decisions, bullet_texts, dedup_request, first_content, user_prompt, DedupError,
    DedupRequest,
};
use lfc::carryover::{contains_text, merge_bullets, merge_carryover};
use lfc::models::{duplicate_bullets, Bullet, Summary};

fn bullet(text: &str, accepted: Option<bool>) -> Bullet {
    Bullet { text: text.to_string(), accepted }
}

fn day() -> chrono::NaiveDate {
    chrono::NaiveDate::from_ymd_opt(2025, 9, 16).unwrap()
}

fn summary(mood: &str, items: Vec<Bullet>) -> Summary {
    Summary { mood: mood.to_string(), items, date: day() }
}

fn pairs(items: &[Bullet]) -> Vec<(String, Option<bool>)> {
    items.iter().map(|b| (b.text.clone(), b.accepted)).collect()
}

fn expect(items: &[(&str, Option<bool>)]) -> Vec<(String, Option<bool>)> {
    items.iter().map(|(t, a)| (t.to_string(), *a)).collect()
}

#[test]
fn merge_drops_a_duplicate_and_requeues_the_rest() {
    let today = vec![bullet("A", None)];
    let carryover = vec![bullet("A", Some(true)), bullet("B", Some(true))];
    let merged = merge_bullets(&today, &carryover);
    assert_eq!(pairs(&merged), expect(&[("A", None), ("B", None)]));
}

#[test]
fn merge_keeps_todays_bullets_first_and_as_they_are() {
    let today = vec![bullet("z", Some(false)), bullet("a", None), bullet("m", Some(true))];
    let carryover = vec![bullet("b", Some(true)), bullet("a", Some(true)), bullet("c", Some(true))];
    let merged = merge_bullets(&today, &carryover);
    assert_eq!(
        pairs(&merged),
        expect(&[("z", Some(false)), ("a", None), ("m", Some(true)), ("b", None), ("c", None)])
    );
}

#[test]
fn merge_drops_duplicates_within_the_carryover() {
    let merged = merge_bullets(
        &vec![],
        &vec![bullet("x", Some(true)), bullet("y", Some(true)), bullet("x", Some(true))],
    );
    assert_eq!(pairs(&merged), expect(&[("x", None), ("y", None)]));
}

#[test]
fn merge_compares_texts_exactly() {
    let today = vec![bullet("Salah scores", None)];
    let carryover = vec![
        bullet("salah scores", Some(true)),
        bullet("Salah scores ", Some(true)),
        bullet("Salah  scores", Some(true)),
        bullet("Salah scores", Some(true)),
    ];
    let merged = merge_bullets(&today, &carryover);
    assert_eq!(
        pairs(&merged),
        expect(&[
            ("Salah scores", None),
            ("salah scores", None),
            ("Salah scores ", None),
            ("Salah  scores", None)
        ])
    );
}

#[test]
fn merge_leaves_duplicates_among_todays_bullets() {
    let today = vec![bullet("A", None), bullet("A", None)];
    let merged = merge_bullets(&today, &vec![bullet("A", Some(true))]);
    assert_eq!(pairs(&merged), expect(&[("A", None), ("A", None)]));
}

#[test]
fn merge_of_nothing_is_nothing() {
    assert!(merge_bullets(&vec![], &vec![]).is_empty());
}

#[test]
fn merge_output_has_no_text_twice_when_today_has_none() {
    let today = vec![bullet("a", None), bullet("b", None)];
    let carryover =
        vec![bullet("b", Some(true)), bullet("c", Some(true)), bullet("c", Some(true)), bullet("a", Some(true))];
    let merged = merge_bullets(&today, &carryover);
    for i in 0..merged.len() {
        for j in (i + 1)..merged.len() {
            assert_ne!(merged[i].text, merged[j].text);
        }
    }
    assert_eq!(merged.len(), 3);
}

#[test]
fn merging_into_a_summary_keeps_mood_and_date() {
    let s = summary("Mixed.", vec![bullet("A", None)]);
    let merged = merge_carryover(&s, &vec![bullet("B", Some(true))]);
    assert_eq!(merged.mood, "Mixed.");
    assert_eq!(merged.date, day());
    assert_eq!(pairs(&merged.items), expect(&[("A", None), ("B", None)]));
}

#[test]
fn looking_for_a_text_among_bullets() {
    let items = vec![bullet("a", None), bullet("b", None)];
    assert!(contains_text(&items, &"b".to_string()));
    assert!(!contains_text(&items, &"B".to_string()));
    assert!(!contains_text(&vec![], &"".to_string()));
}

#[test]
fn copies_of_bullets() {
    let b = bullet("text", Some(false));
    assert_eq!(pairs(&[b.duplicate()]), expect(&[("text", Some(false))]));
    assert_eq!(pairs(&[b.requeued()]), expect(&[("text", None)]));
    assert_eq!(pairs(&[b.decided(true)]), expect(&[("text", Some(true))]));
    assert_eq!(pairs(&duplicate_bullets(&vec![b.duplicate(), b.requeued()])), expect(&[("text", Some(false)), ("text", None)]));
}

#[test]
fn decisions_are_applied_in_order() {
    let current = summary("Good.", vec![bullet("X", None), bullet("Y", None)]);
    let updated = apply_decisions(&current, &vec![false, true]).unwrap();
    assert_eq!(pairs(&updated.items), expect(&[("X", Some(false)), ("Y", Some(true))]));
    assert_eq!(updated.mood, "Good.");
    assert_eq!(updated.date, day());
}

#[test]
fn decisions_overwrite_earlier_decisions() {
    let current = summary("Good.", vec![bullet("X", Some(true))]);
    let updated = apply_decisions(&current, &vec![false]).unwrap();
    assert_eq!(pairs(&updated.items), expect(&[("X", Some(false))]));
}

#[test]
fn too_few_decisions_are_a_count_mismatch() {
    let current = summary("Good.", vec![bullet("X", None), bullet("Y", None)]);
    let err = apply_decisions(&current, &vec![true]).unwrap_err();
    assert_eq!(err, DedupError::ResultCountMismatch { got: 1, expected: 2 });
}

#[test]
fn too_many_decisions_are_a_count_mismatch() {
    let current = summary("Good.", vec![bullet("X", None)]);
    let err = apply_decisions(&current, &vec![true, false, true]).unwrap_err();
    assert_eq!(err, DedupError::ResultCountMismatch { got: 3, expected: 1 });
    let none = summary("Good.", vec![]);
    assert_eq!(
        apply_decisions(&none, &vec![true]).unwrap_err(),
        DedupError::ResultCountMismatch { got: 1, expected: 0 }
    );
}

#[test]
fn no_candidates_need_no_decisions() {
    let none = summary("Quiet.", vec![]);
    assert!(apply_decisions(&none, &vec![]).unwrap().items.is_empty());
}

#[test]
fn request_carries_the_texts_in_order() {
    let previous = vec![bullet("X", Some(true))];
    let current = summary("Good.", vec![bullet("X", None), bullet("Y", None)]);
    let request = dedup_request(&previous, &current);
    assert_eq!(
        request,
        DedupRequest {
            previous_texts: vec!["X".to_string()],
            candidate_texts: vec!["X".to_string(), "Y".to_string()],
        }
    );
    assert_eq!(bullet_texts(&current.items), vec!["X".to_string(), "Y".to_string()]);
}

#[test]
fn prompt_lists_both_sets_of_bullets() {
    let request = DedupRequest {
        previous_texts: vec!["old one".to_string(), "old two".to_string()],
        candidate_texts: vec!["new one".to_string()],
    };
    assert_eq!(
        user_prompt(&request),
        "PREVIOUS BULLETS:\n- old one\n- old two\n\nCANDIDATE BULLETS:\n- new one"
    );
}

#[test]
fn prompt_of_an_empty_request() {
    let request = DedupRequest { previous_texts: vec![], candidate_texts: vec![] };
    assert_eq!(user_prompt(&request), "PREVIOUS BULLETS:\n\n\nCANDIDATE BULLETS:\n");
}

#[test]
fn first_answer_with_content_is_taken() {
    assert_eq!(
        first_content(vec![None, Some("a".to_string()), Some("b".to_string())]),
        Some("a".to_string())
    );
    assert_eq!(first_content(vec![None, None]), None);
    assert_eq!(first_content(vec![]), None);
    assert_eq!(first_content(vec![Some(String::new())]), Some(String::new()));
}

#[test]
fn a_bullet_needs_a_text() {
    assert!(Bullet::new(String::new()).is_none());
    let b = Bullet::new("x".to_string()).unwrap();
    assert_eq!(pairs(&[b]), expect(&[("x", None)]));
}

#[test]
fn a_summary_is_copied_whole() {
    let s = summary("Mixed.", vec![bullet("A", Some(true)), bullet("B", None)]);
    let copy = s.clone();
    assert_eq!(copy.mood, "Mixed.");
    assert_eq!(copy.date, day());
    assert_eq!(pairs(&copy.items), expect(&[("A", Some(true)), ("B", None)]));
}
