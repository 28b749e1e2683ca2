//! Plain text for the notifications, and cleaning of scraped text.

use crate::models::{Bullet, BulletView, Summary, SummaryView};
use crate::text::{chars_of, replace, replaced, string_of, trim, trimmed};
use vstd::prelude::*;
use vstd::string::StringExecFns;

verus! {

/// One line per accepted bullet: a dash, a space, the text and a blank
/// line. Bullets that were rejected or not judged give nothing.
pub open spec fn accepted_lines(items: Seq<BulletView>) -> Seq<char>
    decreases items.len(),
{
    if items.len() == 0 {
        Seq::empty()
    } else {
        accepted_lines(items.drop_last()) + (if items.last().accepted == Some(true) {
            "- "@ + items.last().text + "\n\n"@
        } else {
            Seq::empty()
        })
    }
}

/// The summary as plain text: the mood, a blank line, the accepted bullets,
/// all without surrounding white space.
pub open spec fn summary_plain_text(summary: SummaryView) -> Seq<char> {
    trimmed(summary.mood + "\n\n"@ + accepted_lines(summary.items))
}

/// Writes the summary as the plain text of a notification.
pub fn format_summary_plain_text(summary: &Summary) -> (text: String)
    ensures
        text@ == summary_plain_text(summary@),
{
    let mut output: String = String::new();
    output.append(summary.mood.as_str());
    output.append("\n\n");
    let ghost head = summary.mood@ + "\n\n"@;
    let mut k: usize = 0;
    assert(summary@.items.take(0) =~= Seq::<BulletView>::empty());
    assert(output@ =~= head + accepted_lines(summary@.items.take(0)));
    while k < summary.items.len()
        invariant
            k <= summary.items.len(),
            head == summary.mood@ + "\n\n"@,
            output@ == head + accepted_lines(summary@.items.take(k as int)),
        decreases summary.items.len() - k,
    {
        let ghost before = accepted_lines(summary@.items.take(k as int));
        let bullet: &Bullet = &summary.items[k];
        let accepted: bool = match bullet.accepted {
            Some(a) => a,
            None => false,
        };
        if accepted {
            output.append("- ");
            output.append(bullet.text.as_str());
            output.append("\n\n");
        }
        proof {
            let upto = summary@.items.take(k + 1);
            assert(upto.drop_last() =~= summary@.items.take(k as int));
            assert(upto.last() == summary.items@[k as int]@);
            if accepted {
                assert(output@ =~= head + (before + ("- "@ + bullet.text@ + "\n\n"@)));
            } else {
                assert(output@ =~= head + (before + Seq::<char>::empty()));
            }
        }
        k = k + 1;
    }
    assert(summary@.items.take(k as int) =~= summary@.items);
    let all: Vec<char> = chars_of(output.as_str());
    let kept: Vec<char> = trim(&all);
    string_of(&kept)
}

/// What replacing every match of a regular expression in `text` by `rep`
/// gives, under the syntax and matching rules of the `regex` crate; `None`
/// where the pattern is rejected.
pub uninterp spec fn regex_replaced(pattern: Seq<char>, text: Seq<char>, rep: Seq<char>) -> Option<
    Seq<char>,
>;

/// Compiles `pattern` with `regex::Regex::new` and replaces all its matches
/// in `text` with `Regex::replace_all`. The result is a function of the three
/// arguments alone; a pattern that does not compile gives `None`.
#[verifier::external_body]
fn regex_replace_all(pattern: &str, text: &str, rep: &str) -> (out: Option<String>)
    ensures
        match out {
            Some(t) => regex_replaced(pattern@, text@, rep@) == Some(t@),
            None => regex_replaced(pattern@, text@, rep@) is None,
        },
{
    regex::Regex::new(pattern).ok().map(|re| re.replace_all(text, rep).into_owned())
}

/// One more replacement by pattern applied to a text that earlier steps
/// produced, if they did.
pub open spec fn then_regex(input: Option<Seq<char>>, pattern: Seq<char>, rep: Seq<char>) -> Option<
    Seq<char>,
> {
    match input {
        Some(text) => regex_replaced(pattern, text, rep),
        None => None,
    }
}

/// The named character references that are decoded, each replaced in turn.
pub open spec fn entities_decoded(text: Seq<char>) -> Seq<char> {
    let t = replaced(text, "&nbsp;"@, " "@);
    let t = replaced(t, "&amp;"@, "&"@);
    let t = replaced(t, "&lt;"@, "<"@);
    let t = replaced(t, "&gt;"@, ">"@);
    let t = replaced(t, "&quot;"@, "\""@);
    let t = replaced(t, "&#039;"@, "'"@);
    let t = replaced(t, "&apos;"@, "'"@);
    let t = replaced(t, "&rsquo;"@, "'"@);
    let t = replaced(t, "&mdash;"@, "\u{2014}"@);
    let t = replaced(t, "&ndash;"@, "\u{2013}"@);
    let t = replaced(t, "&hellip;"@, "\u{2026}"@);
    replaced(t, "&copy;"@, "\u{a9}"@)
}

/// Text with the tags removed: whole tags, a tag that was never closed
/// (its name and its quoted attributes, or all that follows the last
/// opening bracket), captions with what they enclose, and shortcodes in
/// square brackets.
pub open spec fn tags_removed(text: Seq<char>) -> Option<Seq<char>> {
    let t = regex_replaced("</?[^>]*>"@, text, ""@);
    let t = then_regex(
        t,
        "<[a-zA-Z][^\\s<>]*(?:\\s+[^\\s<>=]+=(?:'[^']*'|\"[^\"]*\"))+"@,
        ""@,
    );
    let t = then_regex(t, "<[^>]*$"@, ""@);
    let t = then_regex(t, "(?s)\\[caption[^\\]]*\\].*?\\[/caption\\]"@, ""@);
    then_regex(t, "\\[/?[^\\]]*\\]"@, ""@)
}

/// Text with numeric character references turned into apostrophes and runs
/// of white space reduced.
pub open spec fn spacing_cleaned(text: Seq<char>) -> Option<Seq<char>> {
    let t = regex_replaced("&#\\d+;"@, text, "'"@);
    let t = then_regex(t, "\\s+"@, " "@);
    then_regex(t, "\\n\\s*\\n\\s*\\n+"@, "\n\n"@)
}

/// Scraped text cleaned of markup: tags and shortcodes removed, character
/// references decoded, white space reduced and trimmed. `None` where the
/// pattern engine rejects one of the patterns.
pub open spec fn cleaned_html(text: Seq<char>) -> Option<Seq<char>> {
    match tags_removed(text) {
        Some(bare) => match spacing_cleaned(entities_decoded(bare)) {
            Some(spaced) => Some(trimmed(spaced)),
            None => None,
        },
        None => None,
    }
}

/// Replaces every occurrence of `needle` in `text` by `with`.
fn replace_in(text: Vec<char>, needle: &str, with: &str) -> (out: Vec<char>)
    ensures
        out@ == replaced(text@, needle@, with@),
{
    let from: Vec<char> = chars_of(needle);
    let to: Vec<char> = chars_of(with);
    replace(&text, &from, &to)
}

/// Decodes the named character references.
pub fn decode_entities(text: &str) -> (out: String)
    ensures
        out@ == entities_decoded(text@),
{
    let t: Vec<char> = chars_of(text);
    let t: Vec<char> = replace_in(t, "&nbsp;", " ");
    let t: Vec<char> = replace_in(t, "&amp;", "&");
    let t: Vec<char> = replace_in(t, "&lt;", "<");
    let t: Vec<char> = replace_in(t, "&gt;", ">");
    let t: Vec<char> = replace_in(t, "&quot;", "\"");
    let t: Vec<char> = replace_in(t, "&#039;", "'");
    let t: Vec<char> = replace_in(t, "&apos;", "'");
    let t: Vec<char> = replace_in(t, "&rsquo;", "'");
    let t: Vec<char> = replace_in(t, "&mdash;", "\u{2014}");
    let t: Vec<char> = replace_in(t, "&ndash;", "\u{2013}");
    let t: Vec<char> = replace_in(t, "&hellip;", "\u{2026}");
    let t: Vec<char> = replace_in(t, "&copy;", "\u{a9}");
    string_of(&t)
}

/// Removes markup that slipped through scraping: tags, tags that were
/// never closed, captions with what they enclose, shortcodes in square
/// brackets; decodes character references;
/// reduces every run of white space to one space and trims the result.
/// `None` is returned exactly where the pattern engine rejects one of the
/// patterns.
pub fn clean_html_tags(text: &str) -> (cleaned: Option<String>)
    ensures
        match cleaned {
            Some(c) => cleaned_html(text@) == Some(c@),
            None => cleaned_html(text@) is None,
        },
{
    let t: String = match regex_replace_all("</?[^>]*>", text, "") {
        Some(t) => t,
        None => {
            return None;
        },
    };
    let t: String = match regex_replace_all(
        "<[a-zA-Z][^\\s<>]*(?:\\s+[^\\s<>=]+=(?:'[^']*'|\"[^\"]*\"))+",
        t.as_str(),
        "",
    ) {
        Some(t) => t,
        None => {
            return None;
        },
    };
    let t: String = match regex_replace_all("<[^>]*$", t.as_str(), "") {
        Some(t) => t,
        None => {
            return None;
        },
    };
    let t: String = match regex_replace_all(
        "(?s)\\[caption[^\\]]*\\].*?\\[/caption\\]",
        t.as_str(),
        "",
    ) {
        Some(t) => t,
        None => {
            return None;
        },
    };
    let t: String = match regex_replace_all("\\[/?[^\\]]*\\]", t.as_str(), "") {
        Some(t) => t,
        None => {
            return None;
        },
    };
    let t: String = decode_entities(t.as_str());
    let t: String = match regex_replace_all("&#\\d+;", t.as_str(), "'") {
        Some(t) => t,
        None => {
            return None;
        },
    };
    let t: String = match regex_replace_all("\\s+", t.as_str(), " ") {
        Some(t) => t,
        None => {
            return None;
        },
    };
    let t: String = match regex_replace_all("\\n\\s*\\n\\s*\\n+", t.as_str(), "\n\n") {
        Some(t) => t,
        None => {
            return None;
        },
    };
    let all: Vec<char> = chars_of(t.as_str());
    let kept: Vec<char> = trim(&all);
    Some(string_of(&kept))
}

} // verus!
