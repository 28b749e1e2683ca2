//! The order of a run: which step follows which outcome, and when a fetch
//! may be marked as sent.

use crate::ai_deduplicator::{apply_decisions, decided, DedupError};
use crate::db::{position_of, with_summary, BulletStore, StoreError};
use crate::models::{Summary, SummaryView};
use vstd::prelude::*;

verus! {

/// Why the decisions of the classifier were not recorded.
#[derive(Debug, Clone, Copy, PartialEq, Eq)]
pub enum RecordError {
    /// The classifier's answer did not fit the candidates.
    Classification(DedupError),
    /// The store refused the summary.
    Persistence(StoreError),
}

/// Applies the classifier's decisions to the candidates and stores the
/// judged summary with the fetch. Either every candidate is stored with its
/// decision, or the store is as it was: an answer that does not hold one
/// decision per candidate is refused before anything is stored.
pub fn record_decisions(
    store: &mut BulletStore,
    fetch_id: i64,
    candidates: &Summary,
    results: &Vec<bool>,
) -> (recorded: Result<Summary, RecordError>)
    requires
        old(store).is_well_formed(),
    ensures
        final(store).is_well_formed(),
        match recorded {
            Ok(judged) => {
                &&& results@.len() == candidates@.items.len()
                &&& judged@ == (SummaryView {
                    mood: candidates@.mood,
                    items: decided(candidates@.items, results@),
                    date: candidates@.date,
                })
                &&& position_of(old(store)@, fetch_id) matches Some(i)
                &&& old(store)@[i].summary is None
                &&& final(store)@ == with_summary(old(store)@, i, judged@)
            },
            Err(RecordError::Classification(e)) => {
                &&& results@.len() != candidates@.items.len()
                &&& e == (DedupError::ResultCountMismatch {
                    got: results.len(),
                    expected: candidates.items.len(),
                })
                &&& final(store)@ == old(store)@
            },
            Err(RecordError::Persistence(e)) => {
                &&& results@.len() == candidates@.items.len()
                &&& final(store)@ == old(store)@
                &&& match e {
                    StoreError::UnknownFetch => position_of(old(store)@, fetch_id) is None,
                    StoreError::SummaryExists => position_of(old(store)@, fetch_id) matches Some(i)
                        && old(store)@[i].summary is Some,
                }
            },
        },
{
    let judged: Summary = match apply_decisions(candidates, results) {
        Ok(s) => s,
        Err(e) => {
            return Err(RecordError::Classification(e));
        },
    };
    match store.insert_summary(fetch_id, &judged) {
        Ok(()) => Ok(judged),
        Err(e) => Err(RecordError::Persistence(e)),
    }
}

/// How many seconds a whole run is given before it is called off.
pub const RUN_TIMEOUT_SECS: u64 = 1800;

/// What the caller switched off for this run.
#[derive(Debug, Clone, Copy, PartialEq, Eq)]
pub struct RunOptions {
    pub no_ai: bool,
    pub no_email: bool,
    pub no_telegram: bool,
}

/// How a run ended.
#[derive(Debug, Clone, Copy, PartialEq, Eq)]
pub enum Ending {
    /// The settings file was only just created; the user has to fill it in.
    ConfigCreated,
    /// Email is wanted but its settings are missing.
    EmailSettingsMissing,
    /// Telegram is wanted but its bot token is missing.
    TelegramTokenMissing,
    /// No article is new.
    NothingNew,
    /// The articles are stored; summarizing was switched off.
    AiSkipped,
    /// The summary is stored, the channels were tried, the fetch is marked sent.
    Published,
    /// A step failed; the run stopped there.
    Failed,
}

/// The step that a run is to take next.
#[derive(Debug, Clone, Copy, PartialEq, Eq)]
pub enum Step {
    InitLogger,
    EnsureConfig,
    LoadConfig,
    OpenDb,
    LoadKnownUrls,
    DiscoverArticles,
    CreateFetch,
    ScrapeArticles,
    Summarize,
    ReadPublished,
    ReadCarryover,
    Classify,
    StoreSummary,
    /// Try the channels that are switched on.
    Notify { email: bool, telegram: bool },
    MarkSent,
    Stop(Ending),
}

/// What came of a step.
#[derive(Debug, Clone, Copy, PartialEq, Eq)]
pub enum Outcome {
    /// The step succeeded and has nothing to report.
    Done,
    /// The settings file is in place; `created` says that it is new.
    ConfigEnsured { created: bool },
    /// The settings are loaded; the flags say whether email and Telegram
    /// are fully configured.
    ConfigLoaded { email_ready: bool, telegram_ready: bool },
    /// So many articles are new.
    Discovered { new_urls: usize },
    /// Every channel that was switched on has been tried; the flags say
    /// which of them succeeded.
    Notified { email_ok: bool, telegram_ok: bool },
    /// The step failed.
    Failed,
}

/// The first step of every run.
pub open spec fn first_step() -> Step {
    Step::InitLogger
}

/// The step that follows `step` when it ended with `outcome`. A failure
/// stops the run; so does an outcome that the step cannot have. A channel
/// that fails does not: once the channels were tried the fetch is marked.
pub open spec fn step_after(options: RunOptions, step: Step, outcome: Outcome) -> Step {
    match (step, outcome) {
        (Step::Stop(ending), _) => Step::Stop(ending),
        (_, Outcome::Failed) => Step::Stop(Ending::Failed),
        (Step::InitLogger, Outcome::Done) => Step::EnsureConfig,
        (Step::EnsureConfig, Outcome::ConfigEnsured { created }) => if created {
            Step::Stop(Ending::ConfigCreated)
        } else {
            Step::LoadConfig
        },
        (Step::LoadConfig, Outcome::ConfigLoaded { email_ready, telegram_ready }) => if !options.no_email
            && !email_ready {
            Step::Stop(Ending::EmailSettingsMissing)
        } else if !options.no_telegram && !telegram_ready {
            Step::Stop(Ending::TelegramTokenMissing)
        } else {
            Step::OpenDb
        },
        (Step::OpenDb, Outcome::Done) => Step::LoadKnownUrls,
        (Step::LoadKnownUrls, Outcome::Done) => Step::DiscoverArticles,
        (Step::DiscoverArticles, Outcome::Discovered { new_urls }) => if new_urls == 0 {
            Step::Stop(Ending::NothingNew)
        } else {
            Step::CreateFetch
        },
        (Step::CreateFetch, Outcome::Done) => Step::ScrapeArticles,
        (Step::ScrapeArticles, Outcome::Done) => if options.no_ai {
            Step::Stop(Ending::AiSkipped)
        } else {
            Step::Summarize
        },
        (Step::Summarize, Outcome::Done) => Step::ReadPublished,
        (Step::ReadPublished, Outcome::Done) => Step::ReadCarryover,
        (Step::ReadCarryover, Outcome::Done) => Step::Classify,
        (Step::Classify, Outcome::Done) => Step::StoreSummary,
        (Step::StoreSummary, Outcome::Done) => Step::Notify {
            email: !options.no_email,
            telegram: !options.no_telegram,
        },
        (Step::Notify { .. }, Outcome::Notified { .. }) => Step::MarkSent,
        (Step::MarkSent, Outcome::Done) => Step::Stop(Ending::Published),
        _ => Step::Stop(Ending::Failed),
    }
}

/// The step that a run has reached after the given outcomes, one per step
/// taken.
pub open spec fn step_reached(options: RunOptions, outcomes: Seq<Outcome>) -> Step
    decreases outcomes.len(),
{
    if outcomes.len() == 0 {
        first_step()
    } else {
        step_after(options, step_reached(options, outcomes.drop_last()), outcomes.last())
    }
}

/// The step with which every run begins.
pub fn start() -> (step: Step)
    ensures
        step == first_step(),
{
    Step::InitLogger
}

/// Decides the next step of a run from the step just taken and what came
/// of it.
pub fn next_step(options: RunOptions, step: Step, outcome: Outcome) -> (next: Step)
    ensures
        next == step_after(options, step, outcome),
{
    match step {
        Step::Stop(ending) => Step::Stop(ending),
        _ => match outcome {
            Outcome::Failed => Step::Stop(Ending::Failed),
            Outcome::Done => match step {
                Step::InitLogger => Step::EnsureConfig,
                Step::OpenDb => Step::LoadKnownUrls,
                Step::LoadKnownUrls => Step::DiscoverArticles,
                Step::CreateFetch => Step::ScrapeArticles,
                Step::ScrapeArticles => if options.no_ai {
                    Step::Stop(Ending::AiSkipped)
                } else {
                    Step::Summarize
                },
                Step::Summarize => Step::ReadPublished,
                Step::ReadPublished => Step::ReadCarryover,
                Step::ReadCarryover => Step::Classify,
                Step::Classify => Step::StoreSummary,
                Step::StoreSummary => Step::Notify {
                    email: !options.no_email,
                    telegram: !options.no_telegram,
                },
                Step::MarkSent => Step::Stop(Ending::Published),
                _ => Step::Stop(Ending::Failed),
            },
            Outcome::ConfigEnsured { created } => match step {
                Step::EnsureConfig => if created {
                    Step::Stop(Ending::ConfigCreated)
                } else {
                    Step::LoadConfig
                },
                _ => Step::Stop(Ending::Failed),
            },
            Outcome::ConfigLoaded { email_ready, telegram_ready } => match step {
                Step::LoadConfig => if !options.no_email && !email_ready {
                    Step::Stop(Ending::EmailSettingsMissing)
                } else if !options.no_telegram && !telegram_ready {
                    Step::Stop(Ending::TelegramTokenMissing)
                } else {
                    Step::OpenDb
                },
                _ => Step::Stop(Ending::Failed),
            },
            Outcome::Discovered { new_urls } => match step {
                Step::DiscoverArticles => if new_urls == 0 {
                    Step::Stop(Ending::NothingNew)
                } else {
                    Step::CreateFetch
                },
                _ => Step::Stop(Ending::Failed),
            },
            Outcome::Notified { email_ok, telegram_ok } => match step {
                Step::Notify { email, telegram } => Step::MarkSent,
                _ => Step::Stop(Ending::Failed),
            },
        },
    }
}

/// A run has reached the point of marking its fetch only by way of
/// notifying, and the point of notifying only by way of a summary that was
/// stored: in a run that is about to mark its fetch as sent, or has
/// published it, some earlier step stored the summary and succeeded, and a
/// later one tried the channels.
pub proof fn lemma_sent_only_after_stored_and_notified(
    options: RunOptions,
    outcomes: Seq<Outcome>,
) -> (at: (int, int))
    requires
        step_reached(options, outcomes) == Step::MarkSent || step_reached(options, outcomes)
            == Step::Stop(Ending::Published),
    ensures
        0 <= at.0 < at.1 < outcomes.len(),
        step_reached(options, outcomes.take(at.0)) == Step::StoreSummary,
        outcomes[at.0] == Outcome::Done,
        step_reached(options, outcomes.take(at.1)) is Notify,
        outcomes[at.1] is Notified,
        at.1 == at.0 + 1,
    decreases outcomes.len(),
{
    let n = outcomes.len() as int;
    let before = outcomes.drop_last();
    assert(n > 0);
    if step_reached(options, outcomes) == Step::MarkSent {
        // the step before was notifying, and the one before that stored the summary
        assert(step_reached(options, before) is Notify);
        assert(before.len() > 0);
        let earlier = before.drop_last();
        assert(step_reached(options, earlier) == Step::StoreSummary);
        assert(outcomes.take(n - 1) =~= before);
        assert(outcomes.take(n - 2) =~= earlier);
        assert(before.last() == outcomes[n - 2]);
        (n - 2, n - 1)
    } else {
        let prior = step_reached(options, before);
        assert(prior == Step::MarkSent || prior == Step::Stop(Ending::Published));
        let at = lemma_sent_only_after_stored_and_notified(options, before);
        assert(before.take(at.0) =~= outcomes.take(at.0));
        assert(before.take(at.1) =~= outcomes.take(at.1));
        at
    }
}

/// A channel that is switched off is not tried: a run notifies exactly on
/// the channels that its options leave on.
pub proof fn lemma_notifies_only_wanted_channels(options: RunOptions, outcomes: Seq<Outcome>)
    requires
        step_reached(options, outcomes) is Notify,
    ensures
        step_reached(options, outcomes) == (Step::Notify {
            email: !options.no_email,
            telegram: !options.no_telegram,
        }),
{
}

/// A step that fails ends the run for good: whatever is reported after a
/// failure, the run stays stopped and marks nothing as sent. It counts as
/// published only where it had ended published before the failure was
/// reported.
pub proof fn lemma_failure_stops_the_run(
    options: RunOptions,
    outcomes: Seq<Outcome>,
    more: Seq<Outcome>,
)
    requires
        outcomes.len() > 0,
        outcomes.last() == Outcome::Failed,
    ensures
        step_reached(options, outcomes + more) is Stop,
        step_reached(options, outcomes + more) != Step::Stop(Ending::Published) || step_reached(
            options,
            outcomes.drop_last(),
        ) == Step::Stop(Ending::Published),
    decreases more.len(),
{
    if more.len() == 0 {
        assert(outcomes + more =~= outcomes);
    } else {
        lemma_failure_stops_the_run(options, outcomes, more.drop_last());
        assert((outcomes + more).drop_last() =~= outcomes + more.drop_last());
        assert((outcomes + more).last() == more.last());
    }
}

/// With summarizing switched off a run never goes beyond scraping: it
/// stores no summary and marks nothing as sent.
pub proof fn lemma_no_ai_never_publishes(options: RunOptions, outcomes: Seq<Outcome>)
    requires
        options.no_ai,
    ensures
        match step_reached(options, outcomes) {
            Step::Summarize
            | Step::ReadPublished
            | Step::ReadCarryover
            | Step::Classify
            | Step::StoreSummary
            | Step::Notify { .. }
            | Step::MarkSent
            | Step::Stop(Ending::Published) => false,
            _ => true,
        },
    decreases outcomes.len(),
{
    if outcomes.len() > 0 {
        lemma_no_ai_never_publishes(options, outcomes.drop_last());
    }
}

} // verus!
