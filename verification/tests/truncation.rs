use lfc::ai_summarizer::{truncate, truncate_content, TruncateError, Truncated};
use lfc::budget::{plan_token_budget, ArticleTokens};
use lfc::models::NewsArticle;
use lfc::tokenizer::{count_tokens, decode_first_n_tokens};

fn article(title: &str, body: &str) -> NewsArticle {
    NewsArticle {
        url: "https://example.com/news/1".to_string(),
        og_title: title.to_string(),
        published_time: "2025-09-16T12:00:00+00:00".to_string(),
        og_image: "https://example.com/image.jpg".to_string(),
        author: "Reporter".to_string(),
        text: body.to_string(),
        source: "example".to_string(),
    }
}

/// A body of exactly `n` tokens: one word, then `n - 1` times a space and the word.
fn body_of(n: usize) -> String {
    let mut s = String::from("cat");
    for _ in 1..n {
        s.push_str(" cat");
    }
    assert_eq!(count_tokens(&s), Some(n));
    s
}

fn counts(pairs: &[(usize, usize)]) -> Vec<ArticleTokens> {
    pairs.iter().map(|&(title, body)| ArticleTokens { title, body }).collect()
}

#[test]
fn counting_tokens_of_plain_words() {
    assert_eq!(count_tokens(""), Some(0));
    assert_eq!(count_tokens("cat"), Some(1));
    assert_eq!(count_tokens("cat cat cat"), Some(3));
}

#[test]
fn decoding_a_prefix_of_the_tokens() {
    assert_eq!(decode_first_n_tokens("cat cat cat", 2), Some("cat cat".to_string()));
    assert_eq!(decode_first_n_tokens("cat cat cat", 3), Some("cat cat cat".to_string()));
    assert_eq!(decode_first_n_tokens("cat cat cat", 10), Some("cat cat cat".to_string()));
}

#[test]
fn decoding_zero_tokens_or_an_empty_text_gives_nothing() {
    assert_eq!(decode_first_n_tokens("cat cat", 0), Some(String::new()));
    assert_eq!(decode_first_n_tokens("", 5), Some(String::new()));
}

/// One character that takes several tokens.
const SPLIT: &str = "\u{1F9D9}\u{200D}\u{2640}\u{FE0F}";

/// A number of tokens after which `SPLIT` is cut inside a character.
fn splitting_cut() -> usize {
    let n = count_tokens(SPLIT).unwrap();
    assert!(n > 1);
    (1..n).find(|&k| decode_first_n_tokens(SPLIT, k).is_none()).unwrap()
}

#[test]
fn decoding_a_prefix_that_splits_a_character_fails() {
    let n = count_tokens(SPLIT).unwrap();
    let mut failed = 0;
    for k in 1..n {
        match decode_first_n_tokens(SPLIT, k) {
            Some(part) => assert!(!part.is_empty() && SPLIT.starts_with(&part)),
            None => failed += 1,
        }
    }
    assert!(failed > 0);
    assert_eq!(decode_first_n_tokens(SPLIT, splitting_cut()), None);
    assert_eq!(decode_first_n_tokens(SPLIT, n), Some(SPLIT.to_string()));
    assert_eq!(decode_first_n_tokens(SPLIT, n + 5), Some(SPLIT.to_string()));
}

#[test]
fn a_body_that_would_be_cut_inside_a_character_fails_the_truncation() {
    let n = count_tokens(SPLIT).unwrap();
    let cut = splitting_cut();
    let title = count_tokens("T").unwrap();
    // the only body has to go down to `cut` tokens
    assert_eq!(
        truncate(&[article("T", SPLIT)], title + cut, 0, 0),
        Err(TruncateError::TokenizationFailure)
    );
    // with room for the whole body nothing is cut and nothing fails
    assert_eq!(
        truncate(&[article("T", SPLIT)], title + n, 0, 0),
        Ok(Truncated { text: format!("T\n\n{}", SPLIT), total: title + n, over_budget: false })
    );
    // a floor that keeps the body whole keeps it readable, over the ceiling
    let kept = truncate(&[article("T", SPLIT)], title + cut, n, 0).unwrap();
    assert_eq!(kept.text, format!("T\n\n{}", SPLIT));
    assert!(kept.over_budget);
}

#[test]
fn a_body_that_fails_is_not_left_out_of_a_longer_text() {
    let cut = splitting_cut();
    let n = count_tokens(SPLIT).unwrap();
    let short = body_of(2);
    let title = count_tokens("T").unwrap();
    // two articles; only the longer body, the one of several tokens per
    // character, is trimmed, and its cut falls inside the character
    assert!(n > 2);
    let max_total = 2 * title + 2 + cut;
    assert_eq!(
        truncate(&[article("T", &short), article("T", SPLIT)], max_total, 0, 0),
        Err(TruncateError::TokenizationFailure)
    );
}

#[test]
fn no_articles_give_an_empty_text() {
    assert_eq!(truncate_content(&[]), Ok(String::new()));
    assert_eq!(
        truncate(&[], 0, 0, 0),
        Ok(Truncated { text: String::new(), total: 0, over_budget: false })
    );
}

#[test]
fn text_within_the_ceiling_is_joined_word_for_word() {
    let a = article("First title", "Some body.\nWith  odd   spacing ");
    let b = article("Second", "");
    let text = truncate_content(&[a, b]).unwrap();
    assert_eq!(text, "First title\n\nSome body.\nWith  odd   spacing \n\nSecond\n\n");
}

#[test]
fn one_article_has_no_separator_around_it() {
    let a = article("T", "body");
    assert_eq!(truncate_content(&[a]), Ok("T\n\nbody".to_string()));
}

#[test]
fn longest_body_is_trimmed_first() {
    let t1 = "T1";
    let t2 = "T2";
    let titles = count_tokens(t1).unwrap() + count_tokens(t2).unwrap();
    let short = body_of(30);
    let long = body_of(80);
    let max_total = 90;
    let sep = 6;
    // titles + 30 + 80 + 12 tokens are over the ceiling by `excess`
    let excess = titles + 30 + 80 + 2 * sep - max_total;
    assert!(excess < 50);
    let text = truncate(
        &[article(t1, &short), article(t2, &long)],
        max_total,
        10,
        sep,
    )
    .unwrap();
    let kept = body_of(80 - excess);
    assert_eq!(text.text, format!("T1\n\n{}\n\nT2\n\n{}", short, kept));
    assert_eq!(text.total, max_total);
    assert!(!text.over_budget);
}

#[test]
fn a_ceiling_that_cannot_be_met_leaves_every_body_at_the_floor() {
    let a = article("T", &body_of(12));
    let b = article("T", &body_of(3));
    let out = truncate(&[a, b], 5, 4, 1).unwrap();
    assert_eq!(out.text, format!("T\n\n{}\n\nT\n\n{}", body_of(4), body_of(3)));
    assert_eq!(out.total, 1 + 4 + 1 + 3 + 2);
    assert!(out.over_budget);
}

#[test]
fn plan_of_the_two_article_example() {
    let plan = plan_token_budget(&counts(&[(2, 30), (2, 80)]), 90, 10, 6).unwrap();
    assert_eq!(plan.keep, vec![30, 44]);
    assert_eq!(plan.total, 90);
    assert!(!plan.is_over_budget(90));
}

#[test]
fn plan_levels_down_to_the_runner_up_then_cuts_the_first_of_a_tie() {
    // 100 over: the 90 goes down to 60 (30 saved), then the first 60 is cut
    // to the floor of 10 (50 saved), then the other 60 gives the last 20.
    let plan = plan_token_budget(&counts(&[(0, 60), (0, 90), (0, 20)]), 70, 10, 0).unwrap();
    assert_eq!(plan.keep, vec![10, 40, 20]);
    assert_eq!(plan.total, 70);
}

#[test]
fn plan_leaves_fitting_input_alone() {
    let plan = plan_token_budget(&counts(&[(3, 5), (4, 500)]), 600, 40, 6).unwrap();
    assert_eq!(plan.keep, vec![5, 500]);
    assert_eq!(plan.total, 3 + 5 + 4 + 500 + 12);
}

#[test]
fn plan_stops_at_the_floor_when_the_ceiling_cannot_be_met() {
    let plan = plan_token_budget(&counts(&[(10, 100), (10, 5), (10, 50)]), 20, 40, 6).unwrap();
    assert_eq!(plan.keep, vec![40, 5, 40]);
    assert_eq!(plan.total, 30 + 85 + 18);
    assert!(plan.is_over_budget(20));
}

#[test]
fn plan_never_trims_a_body_at_or_below_the_floor() {
    let plan = plan_token_budget(&counts(&[(0, 40), (0, 39), (0, 41)]), 0, 40, 0).unwrap();
    assert_eq!(plan.keep, vec![40, 39, 40]);
}

#[test]
fn plan_makes_progress_on_equal_bodies() {
    let plan = plan_token_budget(&counts(&[(0, 80), (0, 80)]), 140, 10, 0).unwrap();
    assert_eq!(plan.keep, vec![60, 80]);
    assert_eq!(plan.total, 140);
}

#[test]
fn plan_of_no_articles_is_empty() {
    let plan = plan_token_budget(&Vec::new(), 10, 40, 6).unwrap();
    assert_eq!(plan.keep, Vec::<usize>::new());
    assert_eq!(plan.total, 0);
}

#[test]
fn plan_reports_token_counts_that_overflow() {
    assert_eq!(plan_token_budget(&counts(&[(usize::MAX, 1)]), 10, 40, 6), None);
    assert_eq!(plan_token_budget(&counts(&[(1, 1), (0, usize::MAX - 3)]), 10, 40, 1), None);
    assert!(plan_token_budget(&counts(&[(1, 1), (0, usize::MAX - 4)]), 10, 40, 1).is_some());
}

#[test]
fn truncation_error_variants_differ() {
    assert_ne!(TruncateError::TokenizationFailure, TruncateError::TokenCountOverflow);
}

/// A text on which the tokenizer gives up: a run of spaces too long for
/// its pattern matching.
fn untokenizable() -> String {
    let mut s = String::from("a");
    s.push_str(&" ".repeat(1_200_000));
    s.push('x');
    s
}

#[test]
fn a_text_that_does_not_tokenize_has_no_count() {
    let text = untokenizable();
    assert_eq!(count_tokens(&text), None);
    assert_eq!(decode_first_n_tokens(&text, 3), None);
    assert_eq!(decode_first_n_tokens(&text, 0), Some(String::new()));
}

#[test]
fn a_body_that_does_not_tokenize_fails_the_truncation() {
    let good = article("T", "body");
    let bad = article("T", &untokenizable());
    assert_eq!(truncate(&[good, bad], 10, 1, 1), Err(TruncateError::TokenizationFailure));
    let bad_title = article(&untokenizable(), "body");
    assert_eq!(truncate_content(&[bad_title]), Err(TruncateError::TokenizationFailure));
}
