use lfc::db::{
    accepted_bullets, carryover_bullets_of, latest_published_index, published_bullets_of,
    records_are_well_formed, BulletStore, FetchRecord, StoreError, StoredSummary,
};
use lfc::models::{Bullet, Summary};

fn bullet(text: &str, accepted: Option<bool>) -> Bullet {
    Bullet { text: text.to_string(), accepted }
}

fn summary(mood: &str, items: &[(&str, Option<bool>)]) -> Summary {
    Summary {
        mood: mood.to_string(),
        items: items.iter().map(|(t, a)| bullet(t, *a)).collect(),
        date: chrono::NaiveDate::from_ymd_opt(2025, 9, 16).unwrap(),
    }
}

fn record(id: i64, at: i64, sent: bool, items: Option<&[(&str, Option<bool>)]>) -> FetchRecord {
    FetchRecord {
        id,
        generated_at: at,
        sent,
        summary: items.map(|items| StoredSummary {
            mood: "mood".to_string(),
            bullets: items.iter().map(|(t, a)| bullet(t, *a)).collect(),
        }),
    }
}

fn texts(items: &[Bullet]) -> Vec<String> {
    items.iter().map(|b| b.text.clone()).collect()
}

#[test]
fn new_store_has_nothing_published_and_nothing_carried() {
    let store = BulletStore::new();
    assert!(store.records().is_empty());
    assert!(store.fetch_latest_published_bullets().is_empty());
    assert!(store.fetch_unpublished_accepted_bullets_since_last_published().is_empty());
}

#[test]
fn fetch_ids_count_up_from_one() {
    let mut store = BulletStore::new();
    assert_eq!(store.create_fetch(100), Some(1));
    assert_eq!(store.create_fetch(100), Some(2));
    assert_eq!(store.create_fetch(50), Some(3));
    let records = store.records();
    assert_eq!(records.len(), 3);
    assert_eq!(records[2].generated_at, 50);
    assert!(!records[2].sent);
    assert!(records[2].summary.is_none());
}

#[test]
fn fetch_ids_run_out_at_the_largest_id() {
    let mut store = BulletStore::from_records(vec![record(i64::MAX, 0, false, None)]).unwrap();
    assert_eq!(store.create_fetch(1), None);
    assert_eq!(store.records().len(), 1);
}

#[test]
fn summary_is_stored_with_its_decisions() {
    let mut store = BulletStore::new();
    let id = store.create_fetch(10).unwrap();
    let s = summary("Mixed.", &[("a", Some(true)), ("b", Some(false)), ("c", None)]);
    assert_eq!(store.insert_summary(id, &s), Ok(()));
    let stored = store.records()[0].summary.as_ref().unwrap();
    assert_eq!(stored.mood, "Mixed.");
    assert_eq!(texts(&stored.bullets), vec!["a", "b", "c"]);
    assert_eq!(
        stored.bullets.iter().map(|b| b.accepted).collect::<Vec<_>>(),
        vec![Some(true), Some(false), None]
    );
    assert!(!store.records()[0].sent);
}

#[test]
fn summary_for_an_unknown_fetch_is_refused() {
    let mut store = BulletStore::new();
    store.create_fetch(10).unwrap();
    let s = summary("Mixed.", &[("a", Some(true))]);
    assert_eq!(store.insert_summary(7, &s), Err(StoreError::UnknownFetch));
    assert!(store.records()[0].summary.is_none());
}

#[test]
fn second_summary_for_a_fetch_is_refused() {
    let mut store = BulletStore::new();
    let id = store.create_fetch(10).unwrap();
    assert_eq!(store.insert_summary(id, &summary("One.", &[("a", Some(true))])), Ok(()));
    assert_eq!(
        store.insert_summary(id, &summary("Two.", &[("b", Some(true))])),
        Err(StoreError::SummaryExists)
    );
    let stored = store.records()[0].summary.as_ref().unwrap();
    assert_eq!(stored.mood, "One.");
    assert_eq!(texts(&stored.bullets), vec!["a"]);
}

#[test]
fn stored_summary_is_published_only_once_marked_sent() {
    let mut store = BulletStore::new();
    let id = store.create_fetch(10).unwrap();
    store.insert_summary(id, &summary("m", &[("a", Some(true)), ("b", Some(false))])).unwrap();
    assert!(store.fetch_latest_published_bullets().is_empty());
    assert_eq!(texts(&store.fetch_unpublished_accepted_bullets_since_last_published()), vec!["a"]);
    store.mark_summary_sent(id);
    assert_eq!(texts(&store.fetch_latest_published_bullets()), vec!["a"]);
    assert!(store.fetch_unpublished_accepted_bullets_since_last_published().is_empty());
    assert!(store.records()[0].sent);
}

#[test]
fn marking_sent_twice_is_the_same_as_once() {
    let mut store = BulletStore::new();
    let id = store.create_fetch(10).unwrap();
    store.insert_summary(id, &summary("m", &[("a", Some(true))])).unwrap();
    store.mark_summary_sent(id);
    let once = format!("{:?}", store.records());
    store.mark_summary_sent(id);
    assert_eq!(format!("{:?}", store.records()), once);
}

#[test]
fn fetch_without_summary_cannot_be_marked_sent() {
    let mut store = BulletStore::new();
    let id = store.create_fetch(10).unwrap();
    store.mark_summary_sent(id);
    store.mark_summary_sent(99);
    assert!(!store.records()[0].sent);
    assert!(store.fetch_latest_published_bullets().is_empty());
}

#[test]
fn published_bullets_are_those_of_the_most_recent_sent_fetch() {
    let records = vec![
        record(1, 100, true, Some(&[("old", Some(true))])),
        record(2, 300, true, Some(&[("new", Some(true)), ("rejected", Some(false)), ("open", None)])),
        record(3, 200, true, Some(&[("middle", Some(true))])),
        record(4, 400, false, Some(&[("unsent", Some(true))])),
    ];
    assert_eq!(latest_published_index(&records), Some(1));
    assert_eq!(texts(&published_bullets_of(&records)), vec!["new"]);
    assert!(published_bullets_of(&records).iter().all(|b| b.accepted == Some(true)));
}

#[test]
fn among_sent_fetches_of_one_moment_the_last_stored_counts() {
    let records = vec![
        record(1, 100, true, Some(&[("first", Some(true))])),
        record(2, 100, true, Some(&[("second", Some(true))])),
    ];
    assert_eq!(latest_published_index(&records), Some(1));
    assert_eq!(texts(&published_bullets_of(&records)), vec!["second"]);
}

#[test]
fn a_sent_mark_without_summary_publishes_nothing() {
    let records = vec![record(1, 100, true, None)];
    assert_eq!(latest_published_index(&records), None);
    assert!(published_bullets_of(&records).is_empty());
    assert!(!records_are_well_formed(&records));
    assert!(BulletStore::from_records(records).is_none());
}

#[test]
fn carryover_reaches_back_to_the_last_publication_only() {
    let records = vec![
        record(1, 100, false, Some(&[("before publication", Some(true))])),
        record(2, 200, true, Some(&[("published", Some(true))])),
        record(3, 200, false, Some(&[("same moment", Some(true))])),
        record(4, 300, false, Some(&[("a", Some(true)), ("b", Some(false)), ("c", Some(true))])),
        record(5, 400, false, None),
        record(6, 500, false, Some(&[("c", Some(true)), ("open", None), ("d", Some(true))])),
    ];
    let carried = carryover_bullets_of(&records);
    assert_eq!(texts(&carried), vec!["d", "c", "a"]);
    assert!(carried.iter().all(|b| b.accepted == Some(true)));
}

#[test]
fn carryover_takes_every_unsent_fetch_while_nothing_is_published() {
    let records = vec![
        record(1, -5, false, Some(&[("x", Some(true))])),
        record(2, 0, false, Some(&[("y", Some(true)), ("x", Some(true))])),
    ];
    assert_eq!(texts(&carryover_bullets_of(&records)), vec!["x", "y"]);
}

#[test]
fn accepted_bullets_keep_their_order() {
    let items = vec![
        bullet("a", Some(true)),
        bullet("b", None),
        bullet("c", Some(false)),
        bullet("d", Some(true)),
    ];
    assert_eq!(texts(&accepted_bullets(&items)), vec!["a", "d"]);
}

#[test]
fn records_must_have_growing_positive_ids() {
    assert!(records_are_well_formed(&vec![]));
    assert!(records_are_well_formed(&vec![record(1, 0, false, None), record(5, 0, false, None)]));
    assert!(!records_are_well_formed(&vec![record(2, 0, false, None), record(2, 0, false, None)]));
    assert!(!records_are_well_formed(&vec![record(3, 0, false, None), record(1, 0, false, None)]));
    assert!(!records_are_well_formed(&vec![record(0, 0, false, None)]));
}

#[test]
fn a_run_that_fails_before_storing_leaves_the_published_bullets() {
    let mut store = BulletStore::new();
    let first = store.create_fetch(10).unwrap();
    store.insert_summary(first, &summary("m", &[("a", Some(true))])).unwrap();
    store.mark_summary_sent(first);
    let second = store.create_fetch(20).unwrap();
    assert_eq!(texts(&store.fetch_latest_published_bullets()), vec!["a"]);
    store.insert_summary(second, &summary("m", &[("b", Some(true))])).unwrap();
    assert_eq!(texts(&store.fetch_latest_published_bullets()), vec!["a"]);
    store.mark_summary_sent(second);
    assert_eq!(texts(&store.fetch_latest_published_bullets()), vec!["b"]);
}
