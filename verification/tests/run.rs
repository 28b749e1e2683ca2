use lfc::ai_deduplicator::DedupError;
use lfc::ai_summarizer::{summary_from_answer, system_prompt, SUMMARY_INSTRUCTIONS};
use lfc::app::{next_step, record_decisions, start, Ending, Outcome, RecordError, RunOptions, Step};
use lfc::config::Config;
use lfc::db::{BulletStore, StoreError};
use lfc::email::{email_plan, EmailPlan};
use lfc::text::duplicate_strings;
use lfc::models::{Bullet, Summary};
use lfc::telegram::{parse_chat_id, telegram_plan, TelegramPlan};

fn options(no_ai: bool, no_email: bool, no_telegram: bool) -> RunOptions {
    RunOptions { no_ai, no_email, no_telegram }
}

fn run(options: RunOptions, outcomes: &[Outcome]) -> Vec<Step> {
    let mut steps = vec![start()];
    for outcome in outcomes {
        let next = next_step(options, *steps.last().unwrap(), *outcome);
        steps.push(next);
    }
    steps
}

fn config() -> Config {
    Config {
        api_key: "key".to_string(),
        model: "model".to_string(),
        db_path: std::path::PathBuf::from("/tmp/lfc.sqlite3"),
        emails: Some(vec!["a@example.com".to_string(), "b@example.com".to_string()]),
        telegram_chat_ids: Some(vec!["1".to_string(), "-2".to_string()]),
        telegram_bot_token: Some("token".to_string()),
        email_username: Some("me@example.com".to_string()),
        email_app_password: Some("secret".to_string()),
    }
}

fn summary(items: &[&str]) -> Summary {
    Summary {
        mood: "Mixed.".to_string(),
        items: items.iter().map(|t| Bullet { text: t.to_string(), accepted: None }).collect(),
        date: chrono::NaiveDate::from_ymd_opt(2025, 9, 16).unwrap(),
    }
}

const LOADED: Outcome = Outcome::ConfigLoaded { email_ready: true, telegram_ready: true };

#[test]
fn a_whole_run_ends_published() {
    let steps = run(
        options(false, false, false),
        &[
            Outcome::Done,
            Outcome::ConfigEnsured { created: false },
            LOADED,
            Outcome::Done,
            Outcome::Done,
            Outcome::Discovered { new_urls: 3 },
            Outcome::Done,
            Outcome::Done,
            Outcome::Done,
            Outcome::Done,
            Outcome::Done,
            Outcome::Done,
            Outcome::Done,
            Outcome::Notified { email_ok: true, telegram_ok: false },
            Outcome::Done,
        ],
    );
    assert_eq!(
        steps,
        vec![
            Step::InitLogger,
            Step::EnsureConfig,
            Step::LoadConfig,
            Step::OpenDb,
            Step::LoadKnownUrls,
            Step::DiscoverArticles,
            Step::CreateFetch,
            Step::ScrapeArticles,
            Step::Summarize,
            Step::ReadPublished,
            Step::ReadCarryover,
            Step::Classify,
            Step::StoreSummary,
            Step::Notify { email: true, telegram: true },
            Step::MarkSent,
            Step::Stop(Ending::Published),
        ]
    );
}

#[test]
fn a_new_settings_file_ends_the_run() {
    let steps = run(options(false, false, false), &[Outcome::Done, Outcome::ConfigEnsured { created: true }]);
    assert_eq!(steps.last(), Some(&Step::Stop(Ending::ConfigCreated)));
}

#[test]
fn missing_settings_end_the_run_unless_the_channel_is_off() {
    let before = [Outcome::Done, Outcome::ConfigEnsured { created: false }];
    let at = |o: RunOptions, email_ready: bool, telegram_ready: bool| {
        let mut outcomes = before.to_vec();
        outcomes.push(Outcome::ConfigLoaded { email_ready, telegram_ready });
        *run(o, &outcomes).last().unwrap()
    };
    assert_eq!(at(options(false, false, false), false, true), Step::Stop(Ending::EmailSettingsMissing));
    assert_eq!(at(options(false, false, false), false, false), Step::Stop(Ending::EmailSettingsMissing));
    assert_eq!(at(options(false, false, false), true, false), Step::Stop(Ending::TelegramTokenMissing));
    assert_eq!(at(options(false, true, false), false, false), Step::Stop(Ending::TelegramTokenMissing));
    assert_eq!(at(options(false, true, false), false, true), Step::OpenDb);
    assert_eq!(at(options(false, false, true), true, false), Step::OpenDb);
    assert_eq!(at(options(false, true, true), false, false), Step::OpenDb);
}

#[test]
fn nothing_new_ends_the_run_before_a_fetch_is_created() {
    assert_eq!(
        next_step(options(false, false, false), Step::DiscoverArticles, Outcome::Discovered { new_urls: 0 }),
        Step::Stop(Ending::NothingNew)
    );
    assert_eq!(
        next_step(options(false, false, false), Step::DiscoverArticles, Outcome::Discovered { new_urls: 1 }),
        Step::CreateFetch
    );
}

#[test]
fn without_summarizing_the_run_ends_after_scraping() {
    assert_eq!(
        next_step(options(true, false, false), Step::ScrapeArticles, Outcome::Done),
        Step::Stop(Ending::AiSkipped)
    );
    assert_eq!(next_step(options(false, false, false), Step::ScrapeArticles, Outcome::Done), Step::Summarize);
}

#[test]
fn channels_that_are_off_are_not_tried() {
    assert_eq!(
        next_step(options(false, true, false), Step::StoreSummary, Outcome::Done),
        Step::Notify { email: false, telegram: true }
    );
    assert_eq!(
        next_step(options(false, true, true), Step::StoreSummary, Outcome::Done),
        Step::Notify { email: false, telegram: false }
    );
}

#[test]
fn failed_channels_do_not_keep_the_fetch_from_being_marked() {
    let notify = Step::Notify { email: true, telegram: true };
    let o = options(false, false, false);
    assert_eq!(next_step(o, notify, Outcome::Notified { email_ok: false, telegram_ok: false }), Step::MarkSent);
    assert_eq!(next_step(o, notify, Outcome::Notified { email_ok: true, telegram_ok: true }), Step::MarkSent);
}

#[test]
fn a_failed_step_stops_the_run_for_good() {
    let o = options(false, false, false);
    for step in [
        Step::InitLogger,
        Step::Summarize,
        Step::Classify,
        Step::StoreSummary,
        Step::Notify { email: true, telegram: true },
        Step::MarkSent,
    ] {
        assert_eq!(next_step(o, step, Outcome::Failed), Step::Stop(Ending::Failed));
    }
    assert_eq!(next_step(o, Step::Stop(Ending::Failed), Outcome::Done), Step::Stop(Ending::Failed));
    assert_eq!(next_step(o, Step::Stop(Ending::Published), Outcome::Failed), Step::Stop(Ending::Published));
}

#[test]
fn an_outcome_that_a_step_cannot_have_stops_the_run() {
    let o = options(false, false, false);
    assert_eq!(next_step(o, Step::StoreSummary, Outcome::Notified { email_ok: true, telegram_ok: true }), Step::Stop(Ending::Failed));
    assert_eq!(next_step(o, Step::Notify { email: true, telegram: true }, Outcome::Done), Step::Stop(Ending::Failed));
    assert_eq!(next_step(o, Step::OpenDb, Outcome::Discovered { new_urls: 2 }), Step::Stop(Ending::Failed));
    assert_eq!(next_step(o, Step::EnsureConfig, Outcome::Done), Step::Stop(Ending::Failed));
}

#[test]
fn decisions_are_recorded_with_the_fetch() {
    let mut store = BulletStore::new();
    let id = store.create_fetch(10).unwrap();
    let judged = record_decisions(&mut store, id, &summary(&["X", "Y"]), &vec![false, true]).unwrap();
    assert_eq!(judged.items[0].accepted, Some(false));
    assert_eq!(judged.items[1].accepted, Some(true));
    let stored = store.records()[0].summary.as_ref().unwrap();
    assert_eq!(stored.bullets.len(), 2);
    assert_eq!(stored.bullets[0].text, "X");
    assert_eq!(stored.bullets[0].accepted, Some(false));
    assert_eq!(stored.bullets[1].text, "Y");
    assert_eq!(stored.bullets[1].accepted, Some(true));
}

#[test]
fn a_count_mismatch_leaves_nothing_stored() {
    let mut store = BulletStore::new();
    let id = store.create_fetch(10).unwrap();
    let err = record_decisions(&mut store, id, &summary(&["X", "Y"]), &vec![true]).unwrap_err();
    assert_eq!(err, RecordError::Classification(DedupError::ResultCountMismatch { got: 1, expected: 2 }));
    assert!(store.records()[0].summary.is_none());
    assert!(store.fetch_unpublished_accepted_bullets_since_last_published().is_empty());
}

#[test]
fn a_refusal_of_the_store_is_reported() {
    let mut store = BulletStore::new();
    let err = record_decisions(&mut store, 5, &summary(&["X"]), &vec![true]).unwrap_err();
    assert_eq!(err, RecordError::Persistence(StoreError::UnknownFetch));
    let id = store.create_fetch(10).unwrap();
    record_decisions(&mut store, id, &summary(&["X"]), &vec![true]).unwrap();
    let err = record_decisions(&mut store, id, &summary(&["Z"]), &vec![true]).unwrap_err();
    assert_eq!(err, RecordError::Persistence(StoreError::SummaryExists));
    assert_eq!(store.records()[0].summary.as_ref().unwrap().bullets[0].text, "X");
}

#[test]
fn settings_say_which_channels_are_ready() {
    let mut cfg = config();
    assert!(cfg.has_email_settings());
    assert!(cfg.has_telegram_token());
    cfg.email_app_password = None;
    cfg.telegram_bot_token = None;
    assert!(!cfg.has_email_settings());
    assert!(!cfg.has_telegram_token());
    cfg.email_app_password = Some(String::new());
    cfg.email_username = None;
    assert!(!cfg.has_email_settings());
}

#[test]
fn email_goes_to_every_recipient_in_order() {
    assert_eq!(
        email_plan(&config()),
        Some(EmailPlan {
            username: "me@example.com".to_string(),
            app_password: "secret".to_string(),
            recipients: vec!["a@example.com".to_string(), "b@example.com".to_string()],
        })
    );
}

#[test]
fn email_is_left_out_without_recipients_or_credentials() {
    let mut cfg = config();
    cfg.emails = None;
    assert_eq!(email_plan(&cfg), None);
    cfg.emails = Some(vec![]);
    assert_eq!(email_plan(&cfg), None);
    let mut cfg = config();
    cfg.email_username = None;
    assert_eq!(email_plan(&cfg), None);
    let mut cfg = config();
    cfg.email_app_password = None;
    assert_eq!(email_plan(&cfg), None);
}

#[test]
fn telegram_goes_to_every_chat_in_order() {
    assert_eq!(
        telegram_plan(&config()),
        Some(TelegramPlan { bot_token: "token".to_string(), chat_ids: vec!["1".to_string(), "-2".to_string()] })
    );
}

#[test]
fn telegram_is_left_out_without_chats_or_token() {
    let mut cfg = config();
    cfg.telegram_chat_ids = None;
    assert_eq!(telegram_plan(&cfg), None);
    cfg.telegram_chat_ids = Some(vec![]);
    assert_eq!(telegram_plan(&cfg), None);
    let mut cfg = config();
    cfg.telegram_bot_token = None;
    assert_eq!(telegram_plan(&cfg), None);
}

#[test]
fn chat_ids_are_read_as_the_standard_library_reads_them() {
    let cases = [
        "0", "7", "-7", "+7", "0007", "-0", "+0", "123456789", "-1001234567890",
        "9223372036854775807", "9223372036854775808", "-9223372036854775808",
        "-9223372036854775809", "99999999999999999999999", "", "-", "+", "--1", "+-1", " 1",
        "1 ", "1a", "a1", "1.0", "١٢٣", "１２", "1_000",
    ];
    for case in cases {
        assert_eq!(parse_chat_id(case), case.parse::<i64>().ok(), "{:?}", case);
    }
}

#[test]
fn strings_are_copied() {
    let items = vec!["a".to_string(), String::new(), "ü".to_string()];
    assert_eq!(duplicate_strings(&items), items);
}

#[test]
fn system_message_ends_with_the_date() {
    let prompt = system_prompt("2025-09-16");
    assert!(prompt.starts_with(SUMMARY_INSTRUCTIONS));
    let rest = &prompt[SUMMARY_INSTRUCTIONS.len()..];
    assert_eq!(rest, "Today's date is 2025-09-16. Even though articles are published either today or yesterday, they may be referencing events and news that happened a long time ago. Don't summarize those, as they have likely been covered by previous summaries.");
}

#[test]
fn answer_of_the_model_becomes_a_summary_of_open_bullets() {
    let day = chrono::NaiveDate::from_ymd_opt(2025, 9, 16).unwrap();
    let s = summary_from_answer("Good.".to_string(), vec!["one".to_string(), "two".to_string()], day);
    assert_eq!(s.mood, "Good.");
    assert_eq!(s.date, day);
    assert_eq!(
        s.items.iter().map(|b| (b.text.as_str(), b.accepted)).collect::<Vec<_>>(),
        vec![("one", None), ("two", None)]
    );
}

#[test]
fn settings_are_copied_whole() {
    let cfg = config();
    let copy = cfg.clone();
    assert_eq!(format!("{:?}", copy), format!("{:?}", cfg));
    let mut bare = config();
    bare.emails = None;
    bare.telegram_bot_token = None;
    assert_eq!(format!("{:?}", bare.clone()), format!("{:?}", bare));
}
