//! The novelty filter: what is asked of the classifier, and how its
//! decisions are applied to the candidate bullets.

use crate::models::{
    all_say_something, bullet_views, Bullet, BulletView, Summary, SummaryView,
};
use crate::text::string_views;
use vstd::prelude::*;
use vstd::string::StringExecFns;

verus! {

/// Why the classifier's answer could not be applied.
#[derive(Debug, Clone, Copy, PartialEq, Eq)]
pub enum DedupError {
    /// The answer does not hold exactly one decision per candidate.
    ResultCountMismatch { got: usize, expected: usize },
}

/// What the classifier is asked: the texts of the published bullets and the
/// texts of the candidates, each list in its given order.
#[derive(Debug, Clone, PartialEq, Eq)]
pub struct DedupRequest {
    pub previous_texts: Vec<String>,
    pub candidate_texts: Vec<String>,
}

/// The texts of a list of bullets, in order.
pub open spec fn texts_of(items: Seq<BulletView>) -> Seq<Seq<char>> {
    Seq::new(items.len(), |i: int| items[i].text)
}

/// Copies the text of every bullet, in order.
pub fn bullet_texts(items: &[Bullet]) -> (texts: Vec<String>)
    ensures
        string_views(texts@) == texts_of(bullet_views(items@)),
{
    let mut texts: Vec<String> = Vec::new();
    let mut k: usize = 0;
    while k < items.len()
        invariant
            k <= items.len(),
            texts@.len() == k,
            forall|i: int| 0 <= i < k ==> (#[trigger] texts@[i])@ == items@[i].text@,
        decreases items.len() - k,
    {
        texts.push(items[k].text.clone());
        k = k + 1;
    }
    assert(string_views(texts@) =~= texts_of(bullet_views(items@)));
    texts
}

/// Builds the request for one batch of candidates.
pub fn dedup_request(previous_bullets: &[Bullet], current_summary: &Summary) -> (request:
    DedupRequest)
    ensures
        string_views(request.previous_texts@) == texts_of(bullet_views(previous_bullets@)),
        string_views(request.candidate_texts@) == texts_of(current_summary@.items),
{
    DedupRequest {
        previous_texts: bullet_texts(previous_bullets),
        candidate_texts: bullet_texts(current_summary.items.as_slice()),
    }
}

/// The texts as a list, one per line, each after a dash and a space.
pub open spec fn dashed_lines(texts: Seq<Seq<char>>) -> Seq<char>
    decreases texts.len(),
{
    if texts.len() == 0 {
        Seq::empty()
    } else if texts.len() == 1 {
        "- "@ + texts[0]
    } else {
        dashed_lines(texts.drop_last()) + "\n"@ + "- "@ + texts.last()
    }
}

/// The message that carries the request to the classifier.
pub open spec fn user_prompt_text(previous: Seq<Seq<char>>, candidates: Seq<Seq<char>>) -> Seq<
    char,
> {
    "PREVIOUS BULLETS:\n"@ + dashed_lines(previous) + "\n\nCANDIDATE BULLETS:\n"@ + dashed_lines(
        candidates,
    )
}

/// Appends the texts to `out`, one per line, each after a dash and a space.
fn push_dashed_lines(out: &mut String, texts: &Vec<String>)
    ensures
        final(out)@ == old(out)@ + dashed_lines(string_views(texts@)),
{
    let mut k: usize = 0;
    assert(string_views(texts@).take(0) =~= Seq::<Seq<char>>::empty());
    assert(out@ =~= old(out)@ + dashed_lines(string_views(texts@).take(0)));
    while k < texts.len()
        invariant
            k <= texts.len(),
            out@ == old(out)@ + dashed_lines(string_views(texts@).take(k as int)),
        decreases texts.len() - k,
    {
        let ghost before = dashed_lines(string_views(texts@).take(k as int));
        if k > 0 {
            out.append("\n");
        }
        out.append("- ");
        out.append(texts[k].as_str());
        proof {
            let upto = string_views(texts@).take(k + 1);
            assert(upto.drop_last() =~= string_views(texts@).take(k as int));
            assert(upto.last() == texts@[k as int]@);
            if k == 0 {
                assert(before =~= Seq::<char>::empty());
                assert(out@ =~= old(out)@ + dashed_lines(upto));
            } else {
                assert(out@ =~= old(out)@ + dashed_lines(upto));
            }
        }
        k = k + 1;
    }
    assert(string_views(texts@).take(k as int) =~= string_views(texts@));
}

/// Writes the request as the message for the classifier.
pub fn user_prompt(request: &DedupRequest) -> (prompt: String)
    ensures
        prompt@ == user_prompt_text(
            string_views(request.previous_texts@),
            string_views(request.candidate_texts@),
        ),
{
    let mut out: String = String::new();
    out.append("PREVIOUS BULLETS:\n");
    push_dashed_lines(&mut out, &request.previous_texts);
    out.append("\n\nCANDIDATE BULLETS:\n");
    push_dashed_lines(&mut out, &request.candidate_texts);
    assert(out@ =~= user_prompt_text(
        string_views(request.previous_texts@),
        string_views(request.candidate_texts@),
    ));
    out
}

/// The candidates with the decisions filled in, one decision per candidate
/// in order.
pub open spec fn decided(items: Seq<BulletView>, results: Seq<bool>) -> Seq<BulletView> {
    Seq::new(
        items.len(),
        |i: int| BulletView { text: items[i].text, accepted: Some(results[i]) },
    )
}

/// Applies the classifier's decisions. They are applied only where there is
/// exactly one per candidate; the bullets keep their texts and their order,
/// and mood and date stay as they are. Any other number of decisions is a
/// `ResultCountMismatch`, and nothing is decided.
///
/// Whether a candidate is new is the classifier's judgement, also among
/// the candidates of one batch: the decisions are applied as they come, and
/// two candidates that make the same point are both accepted where the
/// classifier accepted both.
pub fn apply_decisions(current_summary: &Summary, results: &Vec<bool>) -> (updated: Result<
    Summary,
    DedupError,
>)
    ensures
        match updated {
            Ok(s) => {
                &&& results@.len() == current_summary@.items.len()
                &&& s@ == (SummaryView {
                    mood: current_summary@.mood,
                    items: decided(current_summary@.items, results@),
                    date: current_summary@.date,
                })
                &&& s@.items.len() == current_summary@.items.len()
                &&& forall|i: int|
                    0 <= i < s@.items.len() ==> (#[trigger] s@.items[i]).accepted is Some
                &&& all_say_something(current_summary@.items) ==> all_say_something(s@.items)
            },
            Err(e) => {
                &&& results@.len() != current_summary@.items.len()
                &&& e == (DedupError::ResultCountMismatch {
                    got: results.len(),
                    expected: current_summary.items.len(),
                })
            },
        },
{
    if results.len() != current_summary.items.len() {
        return Err(
            DedupError::ResultCountMismatch {
                got: results.len(),
                expected: current_summary.items.len(),
            },
        );
    }
    let mut items: Vec<Bullet> = Vec::new();
    let mut k: usize = 0;
    while k < results.len()
        invariant
            k <= results.len(),
            results@.len() == current_summary.items@.len(),
            items@.len() == k,
            forall|i: int|
                0 <= i < k ==> (#[trigger] items@[i])@ == (BulletView {
                    text: current_summary.items@[i]@.text,
                    accepted: Some(results@[i]),
                }),
        decreases results.len() - k,
    {
        items.push(current_summary.items[k].decided(results[k]));
        k = k + 1;
    }
    assert(bullet_views(items@) =~= decided(current_summary@.items, results@));
    assert forall|i: int|
        0 <= i < items@.len() && all_say_something(
            current_summary@.items,
        ) implies (#[trigger] bullet_views(items@)[i]).text.len() > 0 by {
        assert(current_summary@.items[i].text.len() > 0);
    }
    Ok(Summary { mood: current_summary.mood.clone(), items, date: current_summary.date })
}

/// The first of the answers that has any content.
pub open spec fn first_some(choices: Seq<Option<String>>) -> Option<Seq<char>>
    decreases choices.len(),
{
    if choices.len() == 0 {
        None
    } else {
        match choices.first() {
            Some(content) => Some(content@),
            None => first_some(choices.drop_first()),
        }
    }
}

/// Picks the first answer of the model that has any content.
pub fn first_content(choices: Vec<Option<String>>) -> (content: Option<String>)
    ensures
        match content {
            Some(c) => first_some(choices@) == Some(c@),
            None => first_some(choices@) is None,
        },
{
    let ghost all = choices@;
    let mut k: usize = 0;
    assert(all.skip(0) =~= all);
    while k < choices.len()
        invariant
            k <= choices.len(),
            choices@ == all,
            first_some(all) == first_some(all.skip(k as int)),
        decreases choices.len() - k,
    {
        proof {
            assert(all.skip(k as int).drop_first() =~= all.skip(k + 1));
            assert(all.skip(k as int).first() == all[k as int]);
        }
        match &choices[k] {
            Some(found) => {
                return Some(found.clone());
            },
            None => {},
        }
        k = k + 1;
    }
    None
}


/// The instructions that the classifying model is given.
pub const DEDUP_INSTRUCTIONS: &'static str = r#"
You are a helpful assistant for summarizing Liverpool FC news.

You are given:
- A list of bullet points that were recently included in previous daily summaries
- A list of new candidate bullet points for today’s summary

Your job is to compare each candidate bullet to all the previous ones and decide:
  - true  → if this bullet is **meaningfully different** and should be included
  - false → if it is **too similar or repetitive**, and should be discarded

Sometimes, today's bullet points are repetitive as well; please also give false to a bullet point if there is another bullet point from today that is making the same point.

The goal is to end up with a list of "true" bullet points that are informative but not repetitive.

Respond only with a structured JSON array of true/false, in the same order as the candidate bullets.
"#;

/// How many tokens the classifying model may answer with.
pub const DEDUP_ANSWER_TOKENS: u32 = 500;

/// How many seconds the classifying model is given.
pub const DEDUP_TIMEOUT_SECS: u64 = 60;

} // verus!
