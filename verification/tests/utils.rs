use lfc::models::{Bullet, Summary};
use lfc::utils::{clean_html_tags, decode_entities, format_summary_plain_text};

fn clean(text: &str) -> String {
    clean_html_tags(text).unwrap()
}

fn bullet(text: &str, accepted: Option<bool>) -> Bullet {
    Bullet { text: text.to_string(), accepted }
}

fn summary(mood: &str, items: Vec<Bullet>) -> Summary {
    Summary {
        mood: mood.to_string(),
        items,
        date: chrono::NaiveDate::from_ymd_opt(2025, 9, 16).unwrap(),
    }
}

#[test]
fn test_clean_html_tags() {
    // Test basic HTML tag removal
    let input = r#"<p>This is a paragraph</p> with <strong>bold text</strong>."#;
    let expected = "This is a paragraph with bold text.";
    assert_eq!(clean(input), expected);

    // Test complex HTML like the example from thisisanfield
    let complex_input = r#"<img loading="lazy" loading="lazy" decoding="async" src="https://www.thisisanfield.com/wp-content/uploads/P2025-09-16-Liverpool_Atletico_MD-1-3-600x400.jpg" alt="LIVERPOOL, ENGLAND - Tuesday, September 16, 2025" width="600" height="400" class="alignnone size-medium wp-image-327377" srcset="https://example.com/image.jpg 600w" sizes="(max-width: 600px) 100vw, 600px" />This is the actual content."#;
    let expected = "This is the actual content.";
    assert_eq!(clean(complex_input), expected);

    // Test WordPress shortcodes
    let wordpress_input =
        "[caption id='123' align='left']Image caption[/caption] Regular text here.";
    let expected = "Regular text here.";
    assert_eq!(clean(wordpress_input), expected);

    // Test malformed HTML tags
    let malformed_input = "Normal text <img src='test' and then incomplete tag <div";
    let expected = "Normal text and then incomplete tag";
    assert_eq!(clean(malformed_input), expected);

    // Test HTML entities including numeric ones
    let entity_input = "Liverpool&nbsp;&amp;&nbsp;Atletico &lt;match&gt; &quot;preview&quot; &#039;analysis&#039; &#8217;test&#8217; &mdash; dash";
    let expected = "Liverpool & Atletico <match> \"preview\" 'analysis' 'test' — dash";
    assert_eq!(clean(entity_input), expected);

    // Test excessive whitespace cleanup
    let whitespace_input = "<p>Text</p>    <div>More   text</div>   \n\n  <span>End</span>";
    let expected = "Text More text End";
    assert_eq!(clean(whitespace_input), expected);

    // Test empty tags
    let empty_tags = "<p></p><div></div>Some content<br/><hr>";
    let expected = "Some content";
    assert_eq!(clean(empty_tags), expected);
}

#[test]
fn test_html_cleaning_integration() {
    let mock_html_content = r#"<img loading="lazy" src="test.jpg" alt="Liverpool" width="600" height="400" />
        <p>Liverpool manager Jürgen Klopp spoke about the team&rsquo;s performance.</p>
        <div class="wp-caption">Some caption text</div>
        [caption id="123"]Image caption[/caption]
        <strong>The Reds</strong> played well in the match."#;

    let cleaned = clean(mock_html_content);

    // Verify HTML tags are removed
    assert!(!cleaned.contains("<img"));
    assert!(!cleaned.contains("<p>"));
    assert!(!cleaned.contains("</p>"));
    assert!(!cleaned.contains("<div"));
    assert!(!cleaned.contains("<strong>"));
    assert!(!cleaned.contains("[caption"));

    // Verify content remains
    assert!(cleaned.contains("Liverpool manager"));
    assert!(cleaned.contains("The Reds"));
    assert!(cleaned.contains("played well"));

    // Verify entities are cleaned
    assert!(cleaned.contains("team's")); // &rsquo; should become '

    println!("Cleaned content: {}", cleaned);
}

#[test]
fn entities_are_decoded_one_after_the_other() {
    assert_eq!(decode_entities("a&nbsp;b"), "a b");
    assert_eq!(decode_entities("&amp;lt;"), "<");
    assert_eq!(decode_entities("&hellip;&copy;&ndash;&apos;"), "…©–'");
    assert_eq!(decode_entities("no entities"), "no entities");
    assert_eq!(decode_entities(""), "");
}

#[test]
fn entity_decoding_agrees_with_replace_of_the_standard_library() {
    let inputs = ["&amp;&amp;amp;&", "x&lt;&lt&gt;;&quot", "&&&nbsp;&nbsp", "&#039;&#039", "ééé&mdash;é"];
    for input in inputs {
        let expected = input
            .replace("&nbsp;", " ")
            .replace("&amp;", "&")
            .replace("&lt;", "<")
            .replace("&gt;", ">")
            .replace("&quot;", "\"")
            .replace("&#039;", "'")
            .replace("&apos;", "'")
            .replace("&rsquo;", "'")
            .replace("&mdash;", "—")
            .replace("&ndash;", "–")
            .replace("&hellip;", "…")
            .replace("&copy;", "©");
        assert_eq!(decode_entities(input), expected);
    }
}

#[test]
fn cleaning_plain_text_only_reduces_white_space() {
    assert_eq!(clean("  plain   text \n"), "plain text");
    assert_eq!(clean(""), "");
}

#[test]
fn cleaning_removes_a_caption_with_its_text_but_keeps_what_other_shortcodes_enclose() {
    assert_eq!(clean("a [caption id=\"1\"]first\nline[/caption] b [caption]x[/caption] c"), "a b c");
    assert_eq!(clean("[gallery ids=\"1\"]kept[/gallery] text"), "kept text");
    assert_eq!(clean("Liverpool&rsquo;s win"), "Liverpool's win");
}

#[test]
fn plain_text_lists_only_accepted_bullets() {
    let s = summary(
        "Mostly positive.",
        vec![
            bullet("Win at home", Some(true)),
            bullet("Old story", Some(false)),
            bullet("Not judged", None),
            bullet("New signing", Some(true)),
        ],
    );
    assert_eq!(
        format_summary_plain_text(&s),
        "Mostly positive.\n\n- Win at home\n\n- New signing"
    );
}

#[test]
fn plain_text_of_a_summary_without_accepted_bullets_is_the_mood() {
    let s = summary("  Mixed news. ", vec![bullet("Old story", Some(false))]);
    assert_eq!(format_summary_plain_text(&s), "Mixed news.");
    let empty = summary("", vec![]);
    assert_eq!(format_summary_plain_text(&empty), "");
}
