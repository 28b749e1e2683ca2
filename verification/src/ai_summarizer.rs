//! Building the model input from the day's articles, and reading the
//! model's summary.

use crate::budget::{
    floor_of, full_total, initial_total, lemma_fits_or_every_body_at_its_floor,
    plan_token_budget, planned_keep, planned_total, ArticleTokens, TokenBudgetPlan,
};
use crate::models::{bullet_views, Bullet, BulletView, NewsArticle, Summary, SummaryView};
use crate::text::{joined, string_views};
use crate::tokenizer::{count_tokens, decode_first_n_tokens, first_tokens_text, o200k_tokens};
use vstd::prelude::*;
use vstd::string::StringExecFns;

verus! {

/// Ceiling on the tokens of the combined article text.
pub const MAX_TOKENS: usize = 100_000;

/// No body is trimmed below this many tokens.
pub const MIN_BODY_TOKENS: usize = 40;

/// Allowance per article for the blank lines that join the parts.
pub const SEP_TOKENS_PER_ARTICLE: usize = 6;

/// Why no combined text could be produced.
#[derive(Debug, Clone, Copy, PartialEq, Eq)]
pub enum TruncateError {
    /// The tokenizer failed: a title or a body does not tokenize, or the
    /// kept tokens of a body do not decode.
    TokenizationFailure,
    /// The token counts do not add up within a `usize`.
    TokenCountOverflow,
}

/// Token counts of one article, where both its title and its body tokenize.
pub open spec fn tokens_of(article: NewsArticle) -> Option<ArticleTokens> {
    match (o200k_tokens(article.og_title@), o200k_tokens(article.text@)) {
        (Some(title), Some(body)) => Some(
            ArticleTokens { title: title.len() as usize, body: body.len() as usize },
        ),
        _ => None,
    }
}

/// Token counts of all articles, where every title and body tokenizes.
pub open spec fn counts_of(articles: Seq<NewsArticle>) -> Option<Seq<ArticleTokens>> {
    if forall|i: int| 0 <= i < articles.len() ==> (#[trigger] tokens_of(articles[i])) is Some {
        Some(Seq::new(articles.len(), |i: int| tokens_of(articles[i])->0))
    } else {
        None
    }
}

/// A title and a body with a blank line between them.
pub open spec fn block(title: Seq<char>, body: Seq<char>) -> Seq<char> {
    title + "\n\n"@ + body
}

/// The blocks joined by blank lines.
pub open spec fn blocks_text(blocks: Seq<Seq<char>>) -> Seq<char> {
    joined(blocks, "\n\n"@)
}

/// Every article as a block with its body word for word.
pub open spec fn verbatim_blocks(articles: Seq<NewsArticle>) -> Seq<Seq<char>> {
    Seq::new(articles.len(), |i: int| block(articles[i].og_title@, articles[i].text@))
}

/// Every body can be cut to its kept token count: it tokenizes, and its
/// first kept tokens decode to a text.
pub open spec fn kept_bodies_decode(articles: Seq<NewsArticle>, keep: Seq<usize>) -> bool {
    forall|i: int|
        0 <= i < articles.len() ==> (#[trigger] first_tokens_text(articles[i].text@, keep[i]))
            is Some
}

/// Every article as a block with its body cut to the kept token count,
/// where every body can be cut so.
pub open spec fn trimmed_blocks(articles: Seq<NewsArticle>, keep: Seq<usize>) -> Seq<Seq<char>> {
    Seq::new(
        articles.len(),
        |i: int| block(articles[i].og_title@, first_tokens_text(articles[i].text@, keep[i])->0),
    )
}

/// The combined text: word for word where the estimate fits the ceiling,
/// otherwise with every body cut to the length that budgeting gives it.
/// `None` where a body cannot be cut to that length because its kept tokens
/// do not decode.
pub open spec fn truncated_text(
    articles: Seq<NewsArticle>,
    counts: Seq<ArticleTokens>,
    max_total: usize,
    min_body: usize,
    sep: usize,
) -> Option<Seq<char>> {
    if full_total(counts, sep) <= max_total as nat {
        Some(blocks_text(verbatim_blocks(articles)))
    } else if kept_bodies_decode(articles, planned_keep(counts, max_total, min_body, sep)) {
        Some(blocks_text(trimmed_blocks(articles, planned_keep(counts, max_total, min_body, sep))))
    } else {
        None
    }
}

/// What truncation comes to. A title or body that does not tokenize, and
/// a body whose kept tokens do not decode, are a tokenization failure: no
/// text is produced then, and no body is left out or emptied. Token counts
/// that do not add up within a `usize` are an overflow. In every other case
/// there is a text, whether or not it fits the ceiling.
pub open spec fn truncation_of(
    articles: Seq<NewsArticle>,
    max_total: usize,
    min_body: usize,
    sep: usize,
) -> Result<Seq<char>, TruncateError> {
    match counts_of(articles) {
        None => Err(TruncateError::TokenizationFailure),
        Some(counts) => if full_total(counts, sep) > usize::MAX as nat {
            Err(TruncateError::TokenCountOverflow)
        } else {
            match truncated_text(articles, counts, max_total, min_body, sep) {
                Some(text) => Ok(text),
                None => Err(TruncateError::TokenizationFailure),
            }
        },
    }
}

/// Counts the tokens of every title and body.
pub fn count_article_tokens(articles: &[NewsArticle]) -> (counts: Option<Vec<ArticleTokens>>)
    ensures
        match counts {
            Some(c) => counts_of(articles@) == Some(c@),
            None => counts_of(articles@) is None,
        },
{
    let mut counts: Vec<ArticleTokens> = Vec::new();
    let mut k: usize = 0;
    while k < articles.len()
        invariant
            k <= articles.len(),
            counts@.len() == k,
            forall|i: int| 0 <= i < k ==> #[trigger] tokens_of(articles@[i]) == Some(counts@[i]),
        decreases articles.len() - k,
    {
        let title: usize = match count_tokens(articles[k].og_title.as_str()) {
            Some(n) => n,
            None => {
                assert(tokens_of(articles@[k as int]) is None);
                return None;
            },
        };
        let body: usize = match count_tokens(articles[k].text.as_str()) {
            Some(n) => n,
            None => {
                assert(tokens_of(articles@[k as int]) is None);
                return None;
            },
        };
        counts.push(ArticleTokens { title, body });
        k = k + 1;
    }
    assert(counts_of(articles@)->0 =~= counts@);
    Some(counts)
}

/// Appends one block to `out`, after a blank line where `out` already holds
/// blocks.
fn push_block(out: &mut String, first: bool, title: &str, body: &str)
    requires
        first ==> old(out)@.len() == 0,
    ensures
        first ==> final(out)@ == block(title@, body@),
        !first ==> final(out)@ == old(out)@ + "\n\n"@ + block(title@, body@),
{
    if !first {
        out.append("\n\n");
    }
    out.append(title);
    out.append("\n\n");
    out.append(body);
    assert(first ==> out@ =~= block(title@, body@));
    assert(!first ==> out@ =~= old(out)@ + "\n\n"@ + block(title@, body@));
}

/// Joins every title with its whole body.
pub fn join_verbatim(articles: &[NewsArticle]) -> (text: String)
    ensures
        text@ == blocks_text(verbatim_blocks(articles@)),
{
    let mut out: String = String::new();
    let mut k: usize = 0;
    assert(verbatim_blocks(articles@).take(0) =~= Seq::<Seq<char>>::empty());
    while k < articles.len()
        invariant
            k <= articles.len(),
            out@ == blocks_text(verbatim_blocks(articles@).take(k as int)),
            k == 0 ==> out@.len() == 0,
        decreases articles.len() - k,
    {
        push_block(&mut out, k == 0, articles[k].og_title.as_str(), articles[k].text.as_str());
        proof {
            let upto = verbatim_blocks(articles@).take(k + 1);
            assert(upto.drop_last() =~= verbatim_blocks(articles@).take(k as int));
        }
        k = k + 1;
    }
    assert(verbatim_blocks(articles@).take(k as int) =~= verbatim_blocks(articles@));
    out
}

/// Joins every title with the first `keep[i]` tokens of its body. `None`
/// is returned exactly where a body does not tokenize or its first kept
/// tokens do not decode.
pub fn join_trimmed(articles: &[NewsArticle], keep: &Vec<usize>) -> (text: Option<String>)
    requires
        keep@.len() == articles@.len(),
    ensures
        match text {
            Some(t) => {
                &&& kept_bodies_decode(articles@, keep@)
                &&& t@ == blocks_text(trimmed_blocks(articles@, keep@))
            },
            None => !kept_bodies_decode(articles@, keep@),
        },
{
    let mut out: String = String::new();
    let mut k: usize = 0;
    assert(trimmed_blocks(articles@, keep@).take(0) =~= Seq::<Seq<char>>::empty());
    while k < articles.len()
        invariant
            k <= articles.len(),
            keep@.len() == articles@.len(),
            out@ == blocks_text(trimmed_blocks(articles@, keep@).take(k as int)),
            k == 0 ==> out@.len() == 0,
            forall|i: int|
                0 <= i < k ==> (#[trigger] first_tokens_text(articles@[i].text@, keep@[i])) is Some,
        decreases articles.len() - k,
    {
        let body: String = match decode_first_n_tokens(articles[k].text.as_str(), keep[k]) {
            Some(b) => b,
            None => {
                assert(first_tokens_text(articles@[k as int].text@, keep@[k as int]) is None);
                return None;
            },
        };
        push_block(&mut out, k == 0, articles[k].og_title.as_str(), body.as_str());
        proof {
            let upto = trimmed_blocks(articles@, keep@).take(k + 1);
            assert(upto.drop_last() =~= trimmed_blocks(articles@, keep@).take(k as int));
        }
        k = k + 1;
    }
    assert(trimmed_blocks(articles@, keep@).take(k as int) =~= trimmed_blocks(articles@, keep@));
    Some(out)
}

/// The combined text with what budgeting made of it.
#[derive(Debug, Clone, PartialEq, Eq)]
pub struct Truncated {
    /// The combined text.
    pub text: String,
    /// The estimated tokens of the text: titles, kept bodies and separators.
    pub total: usize,
    /// The estimate is still above the ceiling: every body is at its floor
    /// and nothing more could be saved.
    pub over_budget: bool,
}

/// Fits the articles into `max_total` tokens. Where titles, bodies and
/// `sep` tokens per article already fit, the result is every title and body
/// word for word. Otherwise the longest bodies are cut first, none below
/// `min_body` tokens, and every body is rebuilt from its first kept tokens;
/// titles are never cut. Titles and bodies are separated, and articles are
/// joined, by blank lines.
///
/// A ceiling that cannot be met is no error: the text is then as short as
/// the floor allows, and marked as over budget. A failure of the tokenizer
/// is one: where a title or a body does not tokenize, or the kept tokens of
/// a body do not decode, no text is returned.
pub fn truncate(
    articles: &[NewsArticle],
    max_total: usize,
    min_body: usize,
    sep: usize,
) -> (out: Result<Truncated, TruncateError>)
    ensures
        match out {
            Ok(t) => {
                &&& truncation_of(articles@, max_total, min_body, sep) == Ok::<
                    Seq<char>,
                    TruncateError,
                >(t.text@)
                &&& counts_of(articles@) matches Some(counts)
                &&& full_total(counts, sep) <= max_total as nat ==> t.text@ == blocks_text(
                    verbatim_blocks(articles@),
                )
                &&& t.total as nat == planned_total(counts, max_total, min_body, sep)
                &&& t.over_budget == (t.total > max_total)
                &&& t.total <= max_total || forall|i: int|
                    0 <= i < counts.len() ==> #[trigger] planned_keep(
                        counts,
                        max_total,
                        min_body,
                        sep,
                    )[i] == floor_of(counts[i].body, min_body)
            },
            Err(e) => truncation_of(articles@, max_total, min_body, sep) == Err::<
                Seq<char>,
                TruncateError,
            >(e),
        },
{
    let counts: Vec<ArticleTokens> = match count_article_tokens(articles) {
        Some(c) => c,
        None => {
            return Err(TruncateError::TokenizationFailure);
        },
    };
    let total: usize = match initial_total(&counts, sep) {
        Some(t) => t,
        None => {
            return Err(TruncateError::TokenCountOverflow);
        },
    };
    if total <= max_total {
        return Ok(Truncated { text: join_verbatim(articles), total, over_budget: false });
    }
    let plan: TokenBudgetPlan = match plan_token_budget(&counts, max_total, min_body, sep) {
        Some(p) => p,
        None => {
            return Err(TruncateError::TokenCountOverflow);
        },
    };
    proof {
        lemma_fits_or_every_body_at_its_floor(counts@, max_total, min_body, sep);
    }
    match join_trimmed(articles, &plan.keep) {
        Some(text) => Ok(
            Truncated { text, total: plan.total, over_budget: plan.is_over_budget(max_total) },
        ),
        None => Err(TruncateError::TokenizationFailure),
    }
}

/// Fits the articles into the model's context window. The errors are
/// those of `truncate`.
pub fn truncate_content(articles: &[NewsArticle]) -> (text: Result<String, TruncateError>)
    ensures
        match text {
            Ok(t) => truncation_of(
                articles@,
                MAX_TOKENS,
                MIN_BODY_TOKENS,
                SEP_TOKENS_PER_ARTICLE,
            ) == Ok::<Seq<char>, TruncateError>(t@),
            Err(e) => truncation_of(
                articles@,
                MAX_TOKENS,
                MIN_BODY_TOKENS,
                SEP_TOKENS_PER_ARTICLE,
            ) == Err::<Seq<char>, TruncateError>(e),
        },
{
    match truncate(articles, MAX_TOKENS, MIN_BODY_TOKENS, SEP_TOKENS_PER_ARTICLE) {
        Ok(t) => Ok(t.text),
        Err(e) => Err(e),
    }
}

/// The instructions that the summarizing model is given.
pub const SUMMARY_INSTRUCTIONS: &'static str = r#"
        You are a Liverpool (LFC) fan and supporter. You have access to some news published about the club from the last 24 hours.

        Analyze all the provided articles and create a summary of the key developments and trends from the past 24 hours.

        Return only a JSON object with this structure:
        {
          "mood": string,
          "items": [string, string, ...]
        }

        The "mood" string should be a ONE-SENTENCE summary stating whether the news is mostly positive, mostly negative, or mixed, and very briefly why.

        Each item in the "items" array of string is a bullet point summarizing some news/development. Feel free to end the bullet point text with an appropriate emoji. Don't repeat the same story across multiple bullet points, even if there are multiple articles talking about it.

        Feel free to be biased towards our beloved club. Use casual language and emojis.
        Feel free to ignore articles that are not relevant or that seem to be ads.
        Please do not use clickbait titles, summaries, or language. Be concise. Do not include live streaming information.
        The most important areas that fans would care about are potential transfers, injuries, player/team stats, and match summaries/previews.
        "#;

/// How many tokens the summarizing model may answer with.
pub const SUMMARY_ANSWER_TOKENS: u32 = 1000;

/// How many seconds the summarizing model is given.
pub const SUMMARY_TIMEOUT_SECS: u64 = 60;

/// The system message for the summarizing model: the instructions, then
/// today's date and the reminder to leave old events out.
pub open spec fn system_prompt_text(today: Seq<char>) -> Seq<char> {
    SUMMARY_INSTRUCTIONS@ + "Today's date is "@ + today
        + ". Even though articles are published either today or yesterday, they may be referencing events and news that happened a long time ago. Don't summarize those, as they have likely been covered by previous summaries."@
}

/// Writes the system message for the summarizing model. `today` is the
/// date as year, month and day.
pub fn system_prompt(today: &str) -> (prompt: String)
    ensures
        prompt@ == system_prompt_text(today@),
{
    let mut prompt: String = String::new();
    prompt.append(SUMMARY_INSTRUCTIONS);
    prompt.append("Today's date is ");
    prompt.append(today);
    prompt.append(
        ". Even though articles are published either today or yesterday, they may be referencing events and news that happened a long time ago. Don't summarize those, as they have likely been covered by previous summaries.",
    );
    assert(prompt@ =~= system_prompt_text(today@));
    prompt
}

/// The texts as bullets that wait to be judged, in order.
pub open spec fn unjudged(texts: Seq<Seq<char>>) -> Seq<BulletView> {
    Seq::new(texts.len(), |i: int| BulletView { text: texts[i], accepted: None })
}

/// Makes the summary of a run from the model's answer: every item becomes
/// a bullet that waits to be judged, in the order of the answer.
pub fn summary_from_answer(mood: String, items: Vec<String>, date: chrono::NaiveDate) -> (summary:
    Summary)
    ensures
        summary@ == (SummaryView {
            mood: mood@,
            items: unjudged(string_views(items@)),
            date: date,
        }),
{
    let mut bullets: Vec<Bullet> = Vec::new();
    let mut k: usize = 0;
    while k < items.len()
        invariant
            k <= items.len(),
            bullets@.len() == k,
            forall|i: int|
                0 <= i < k ==> (#[trigger] bullets@[i])@ == (BulletView {
                    text: items@[i]@,
                    accepted: None,
                }),
        decreases items.len() - k,
    {
        bullets.push(Bullet { text: items[k].clone(), accepted: None });
        k = k + 1;
    }
    assert(bullet_views(bullets@) =~= unjudged(string_views(items@)));
    Summary { mood, items: bullets, date }
}

} // verus!
