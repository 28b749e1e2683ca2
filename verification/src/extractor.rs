//! Reading links and articles out of the pages of the news sites.

use crate::models::NewsArticle;
use crate::text::{
    byte_len, contains_text, decimal_text, joined, number_text, optional_text, starts_with_text,
    str_contains, str_join, str_starts_with, str_trim, string_views, trimmed, utf8_len,
};
use crate::utils::{clean_html_tags, cleaned_html};
use vstd::prelude::*;
use vstd::string::StringExecFns;

verus! {

/// What is read of one element of a page: the values of the attributes
/// that were asked for, one entry per name; the text nodes beneath it, in
/// the order in which the page reader yields them; and its inner markup.
#[derive(Debug, Clone, PartialEq, Eq)]
pub struct ElementData {
    pub attrs: Vec<Option<String>>,
    pub texts: Vec<String>,
    pub inner_html: String,
}

/// An element as plain values.
pub struct ElementView {
    pub attrs: Seq<Option<Seq<char>>>,
    pub texts: Seq<Seq<char>>,
    pub inner_html: Seq<char>,
}

impl View for ElementData {
    type V = ElementView;

    open spec fn view(&self) -> ElementView {
        ElementView {
            attrs: Seq::new(self.attrs@.len(), |i: int| optional_text(self.attrs@[i])),
            texts: string_views(self.texts@),
            inner_html: self.inner_html@,
        }
    }
}

/// The value of the attribute that was asked for in place `slot`; `None`
/// where the element does not have it.
pub open spec fn attr_of(element: ElementView, slot: int) -> Option<Seq<char>> {
    if 0 <= slot < element.attrs.len() {
        element.attrs[slot]
    } else {
        None
    }
}

/// The value of the attribute that was asked for in place `slot`.
pub fn attribute(element: &ElementData, slot: usize) -> (value: Option<&String>)
    ensures
        match value {
            Some(v) => attr_of(element@, slot as int) == Some(v@),
            None => attr_of(element@, slot as int) is None,
        },
{
    if slot < element.attrs.len() {
        assert(element@.attrs[slot as int] == optional_text(element.attrs@[slot as int]));
        match &element.attrs[slot] {
            Some(v) => Some(v),
            None => None,
        }
    } else {
        None
    }
}

/// The elements of a list as plain values, in order.
pub open spec fn element_views(elements: Seq<ElementData>) -> Seq<ElementView> {
    Seq::new(elements.len(), |i: int| elements[i]@)
}

/// The elements of a list of lists as plain values, in order.
pub open spec fn nested_element_views(groups: Seq<Vec<ElementData>>) -> Seq<Seq<ElementView>> {
    Seq::new(groups.len(), |i: int| element_views(groups[i]@))
}

/// The elements of a page that a CSS selector matches, as the `scraper`
/// crate parses the page and matches the selector, in the order in which
/// its selection yields them; `None` where the selector is rejected.
pub uninterp spec fn html_selection(html: Seq<char>, css: Seq<char>, attrs: Seq<Seq<char>>) -> Option<
    Seq<ElementView>,
>;

/// For every element of a page that the selector `outer` matches, the
/// elements beneath it that the selector `inner` matches, both in the order
/// in which the selections of the `scraper` crate yield them; `None` where
/// a selector is rejected.
pub uninterp spec fn html_nested_selection(
    html: Seq<char>,
    outer: Seq<char>,
    inner: Seq<char>,
    attrs: Seq<Seq<char>>,
) -> Option<Seq<Seq<ElementView>>>;

/// Parses a page with `scraper::Html::parse_document` and a selector with
/// `scraper::Selector::parse`, and hands out every match of `Html::select`
/// with the attributes named in `attrs` (`Element::attr`), its text nodes
/// (`ElementRef::text`) and its inner markup (`ElementRef::inner_html`).
/// The result is a function of the arguments alone; a selector that does
/// not parse gives `None`.
#[verifier::external_body]
fn select_elements(html: &str, css: &str, attrs: &Vec<String>) -> (found: Option<Vec<ElementData>>)
    ensures
        match found {
            Some(e) => html_selection(html@, css@, string_views(attrs@)) == Some(element_views(e@)),
            None => html_selection(html@, css@, string_views(attrs@)) is None,
        },
{
    let selector = scraper::Selector::parse(css).ok()?;
    let page = scraper::Html::parse_document(html);
    let read = |e: scraper::ElementRef| ElementData {
        attrs: attrs.iter().map(|a| e.value().attr(a).map(str::to_string)).collect(),
        texts: e.text().map(str::to_string).collect(),
        inner_html: e.inner_html(),
    };
    Some(page.select(&selector).map(read).collect())
}

/// As `select_elements`, in two levels: the matches of `outer` with
/// `Html::select`, and for each of them the matches of `inner` beneath it
/// with `ElementRef::select`.
#[verifier::external_body]
fn select_nested(html: &str, outer: &str, inner: &str, attrs: &Vec<String>) -> (found: Option<
    Vec<Vec<ElementData>>,
>)
    ensures
        match found {
            Some(g) => html_nested_selection(html@, outer@, inner@, string_views(attrs@)) == Some(
                nested_element_views(g@),
            ),
            None => html_nested_selection(html@, outer@, inner@, string_views(attrs@)) is None,
        },
{
    let outer = scraper::Selector::parse(outer).ok()?;
    let inner = scraper::Selector::parse(inner).ok()?;
    let page = scraper::Html::parse_document(html);
    let read = |e: scraper::ElementRef| ElementData {
        attrs: attrs.iter().map(|a| e.value().attr(a).map(str::to_string)).collect(),
        texts: e.text().map(str::to_string).collect(),
        inner_html: e.inner_html(),
    };
    Some(page.select(&outer).map(|o| o.select(&inner).map(read).collect()).collect())
}

/// The URL that a link gives against a base address, without its fragment,
/// in the normal form of the `url` crate; `None` where base or link do not
/// parse.
pub uninterp spec fn resolved_link(base: Seq<char>, href: Seq<char>) -> Option<Seq<char>>;

/// Resolves a link with `url::Url::parse` of the base and `Url::join`,
/// drops the fragment with `Url::set_fragment(None)` and writes the result
/// with `to_string`. The result is a function of the two texts alone.
#[verifier::external_body]
fn resolve_link(base: &str, href: &str) -> (link: Option<String>)
    ensures
        optional_text(link) == resolved_link(base@, href@),
{
    let mut url = url::Url::parse(base).ok()?.join(href).ok()?;
    url.set_fragment(None);
    Some(url.to_string())
}

/// The normal form that the `url` crate gives a URL; `None` where the text
/// is no URL.
pub uninterp spec fn normalized_url(text: Seq<char>) -> Option<Seq<char>>;

/// Parses a URL with `url::Url::parse` and writes it with `to_string`. The
/// result is a function of the text alone.
#[verifier::external_body]
fn normalize_url(text: &str) -> (url: Option<String>)
    ensures
        optional_text(url) == normalized_url(text@),
{
    url::Url::parse(text).ok().map(|u| u.to_string())
}

/// The moment that a text names, in UTC and written as RFC 3339 has it;
/// `None` where the text names no moment.
pub uninterp spec fn utc_time_text(text: Seq<char>) -> Option<Seq<char>>;

/// Parses a moment with `FromStr` of `chrono::DateTime<Utc>` and writes it
/// with `to_rfc3339`. The result is a function of the text alone.
#[verifier::external_body]
fn parse_utc_time(text: &str) -> (time: Option<String>)
    ensures
        optional_text(time) == utc_time_text(text@),
{
    text.parse::<chrono::DateTime<chrono::Utc>>().ok().map(|t| t.to_rfc3339())
}

/// Why a page gave no links or no article.
#[derive(Debug, Clone, Copy, PartialEq, Eq)]
pub enum ExtractError {
    /// The page could not be read: a selector or a cleaning pattern was
    /// rejected.
    Unreadable,
    /// The page names no title.
    MissingTitle,
    /// The page names no time of publication.
    MissingPublishedTime,
    /// The time of publication cannot be read.
    BadPublishedTime,
    /// The page names no image.
    MissingImage,
    /// The address of the image is no URL.
    BadImageUrl,
}

/// Which reader a page needs.
#[derive(Debug, Clone, Copy, PartialEq, Eq)]
pub enum Site {
    Football365,
    ThisIsAnfield,
}

/// The site that a host belongs to: This Is Anfield for its own host,
/// Football365 for every other.
pub fn site_of_host(host: Option<&str>) -> (site: Site)
    ensures
        site == (if host matches Some(h) && h@ == "www.thisisanfield.com"@ {
            Site::ThisIsAnfield
        } else {
            Site::Football365
        }),
{
    match host {
        Some(h) => {
            let name: String = h.to_owned();
            let own: String = "www.thisisanfield.com".to_owned();
            if name == own {
                Site::ThisIsAnfield
            } else {
                Site::Football365
            }
        },
        None => Site::Football365,
    }
}

/// A string list of the given names.
fn names1(a: &str) -> (names: Vec<String>)
    ensures
        string_views(names@) == seq![a@],
{
    let mut names: Vec<String> = Vec::new();
    names.push(a.to_owned());
    assert(string_views(names@) =~= seq![a@]);
    names
}

/// A string list of the given names.
fn names3(a: &str, b: &str, c: &str) -> (names: Vec<String>)
    ensures
        string_views(names@) == seq![a@, b@, c@],
{
    let mut names: Vec<String> = Vec::new();
    names.push(a.to_owned());
    names.push(b.to_owned());
    names.push(c.to_owned());
    assert(string_views(names@) =~= seq![a@, b@, c@]);
    names
}

/// An address is an article of Football365: it lies under the news path
/// and is neither an author page, nor a media watch, nor a mailbox.
pub open spec fn is_football365_article(link: Seq<char>) -> bool {
    &&& starts_with_text(link, "https://www.football365.com/news/"@)
    &&& !contains_text(link, "/news/author/"@)
    &&& !contains_text(link, "-mediawatch"@)
    &&& !contains_text(link, "-mailbox"@)
}

/// Whether an address is an article of Football365.
pub fn football365_article_link(link: &str) -> (keep: bool)
    ensures
        keep == is_football365_article(link@),
{
    str_starts_with(link, "https://www.football365.com/news/") && !str_contains(
        link,
        "/news/author/",
    ) && !str_contains(link, "-mediawatch") && !str_contains(link, "-mailbox")
}

/// Some string of the list is exactly this text.
pub open spec fn lists_text(items: Seq<Seq<char>>, text: Seq<char>) -> bool {
    exists|i: int| 0 <= i < items.len() && #[trigger] items[i] == text
}

/// Whether some string of the list is exactly this text.
pub fn lists(items: &Vec<String>, text: &String) -> (found: bool)
    ensures
        found == lists_text(string_views(items@), text@),
{
    let mut k: usize = 0;
    while k < items.len()
        invariant
            k <= items.len(),
            forall|i: int| 0 <= i < k ==> #[trigger] string_views(items@)[i] != text@,
        decreases items.len() - k,
    {
        if items[k] == *text {
            assert(string_views(items@)[k as int] == text@);
            return true;
        }
        k = k + 1;
    }
    false
}

/// The article links among the links of a Football365 page: every link is
/// resolved against the site, a link that does not resolve or is no article
/// is left out, and no address is listed twice.
pub open spec fn football365_links_among(links: Seq<ElementView>) -> Seq<Seq<char>>
    decreases links.len(),
{
    if links.len() == 0 {
        Seq::empty()
    } else {
        let before = football365_links_among(links.drop_last());
        match attr_of(links.last(), 0) {
            Some(href) => match resolved_link("https://www.football365.com"@, href) {
                Some(link) => if is_football365_article(link) && !lists_text(before, link) {
                    before.push(link)
                } else {
                    before
                },
                None => before,
            },
            None => before,
        }
    }
}

/// The article links of a Football365 news page: those among the links of
/// its first main block, and none where it has no such block.
pub open spec fn football365_links(html: Seq<char>) -> Option<Seq<Seq<char>>> {
    match html_nested_selection(html, "main.w-full.lg\\:w-main"@, "a[href]"@, seq!["href"@]) {
        Some(blocks) => if blocks.len() == 0 {
            Some(Seq::empty())
        } else {
            Some(football365_links_among(blocks[0]))
        },
        None => None,
    }
}

/// Reads the article links out of a Football365 news page.
pub fn extract_football365_articles(html: &str) -> (links: Result<Vec<String>, ExtractError>)
    ensures
        match links {
            Ok(found) => football365_links(html@) == Some(string_views(found@)),
            Err(e) => e == ExtractError::Unreadable && football365_links(html@) is None,
        },
{
    let wanted: Vec<String> = names1("href");
    let blocks: Vec<Vec<ElementData>> = match select_nested(
        html,
        "main.w-full.lg\\:w-main",
        "a[href]",
        &wanted,
    ) {
        Some(b) => b,
        None => {
            return Err(ExtractError::Unreadable);
        },
    };
    let mut found: Vec<String> = Vec::new();
    if blocks.len() == 0 {
        assert(string_views(found@) =~= Seq::<Seq<char>>::empty());
        return Ok(found);
    }
    let anchors: &Vec<ElementData> = &blocks[0];
    let ghost all = element_views(anchors@);
    assert(nested_element_views(blocks@)[0] == all);
    let mut k: usize = 0;
    assert(all.take(0) =~= Seq::<ElementView>::empty());
    assert(string_views(found@) =~= Seq::<Seq<char>>::empty());
    while k < anchors.len()
        invariant
            k <= anchors.len(),
            all == element_views(anchors@),
            string_views(found@) == football365_links_among(all.take(k as int)),
        decreases anchors.len() - k,
    {
        let ghost before = string_views(found@);
        proof {
            assert(all.take(k + 1).drop_last() =~= all.take(k as int));
            assert(all.take(k + 1).last() == anchors@[k as int]@);
        }
        match attribute(&anchors[k], 0) {
            Some(href) => {
                match resolve_link("https://www.football365.com", href.as_str()) {
                    Some(link) => {
                        if football365_article_link(link.as_str()) && !lists(&found, &link) {
                            found.push(link);
                            assert(string_views(found@) =~= before.push(
                                found@[found@.len() - 1]@,
                            ));
                        }
                    },
                    None => {},
                }
            },
            None => {},
        }
        k = k + 1;
    }
    assert(all.take(k as int) =~= all);
    Ok(found)
}

/// Where the articles of a year begin on This Is Anfield.
pub open spec fn thisisanfield_year_prefix(year: int) -> Seq<char> {
    "https://www.thisisanfield.com/"@ + decimal_text(year) + "/"@
}

/// The text of an element: its text nodes one after the other.
pub open spec fn whole_text(texts: Seq<Seq<char>>) -> Seq<char> {
    joined(texts, ""@)
}

/// The article links among the entries of a This Is Anfield sitemap: the
/// entries that are URLs under the path of the year, each once, in their
/// normal form.
pub open spec fn thisisanfield_links_among(entries: Seq<ElementView>, year: int) -> Seq<Seq<char>>
    decreases entries.len(),
{
    if entries.len() == 0 {
        Seq::empty()
    } else {
        let before = thisisanfield_links_among(entries.drop_last(), year);
        match normalized_url(whole_text(entries.last().texts)) {
            Some(link) => if starts_with_text(link, thisisanfield_year_prefix(year))
                && !lists_text(before, link) {
                before.push(link)
            } else {
                before
            },
            None => before,
        }
    }
}

/// The article links of a This Is Anfield sitemap for the given year.
pub open spec fn thisisanfield_links(html: Seq<char>, year: int) -> Option<Seq<Seq<char>>> {
    match html_selection(html, "loc"@, Seq::empty()) {
        Some(entries) => Some(thisisanfield_links_among(entries, year)),
        None => None,
    }
}

/// Reads the article links of the given year out of a This Is Anfield
/// sitemap.
pub fn extract_thisisanfield_articles(html: &str, year: i32) -> (links: Result<
    Vec<String>,
    ExtractError,
>)
    ensures
        match links {
            Ok(found) => thisisanfield_links(html@, year as int) == Some(string_views(found@)),
            Err(e) => e == ExtractError::Unreadable && thisisanfield_links(html@, year as int)
                is None,
        },
{
    let wanted: Vec<String> = Vec::new();
    assert(string_views(wanted@) =~= Seq::<Seq<char>>::empty());
    let entries: Vec<ElementData> = match select_elements(html, "loc", &wanted) {
        Some(e) => e,
        None => {
            return Err(ExtractError::Unreadable);
        },
    };
    let mut prefix: String = String::new();
    prefix.append("https://www.thisisanfield.com/");
    prefix.append(number_text(year).as_str());
    prefix.append("/");
    assert(prefix@ =~= thisisanfield_year_prefix(year as int));
    let ghost all = element_views(entries@);
    let mut found: Vec<String> = Vec::new();
    let mut k: usize = 0;
    assert(all.take(0) =~= Seq::<ElementView>::empty());
    assert(string_views(found@) =~= Seq::<Seq<char>>::empty());
    while k < entries.len()
        invariant
            k <= entries.len(),
            all == element_views(entries@),
            prefix@ == thisisanfield_year_prefix(year as int),
            string_views(found@) == thisisanfield_links_among(all.take(k as int), year as int),
        decreases entries.len() - k,
    {
        let ghost before = string_views(found@);
        proof {
            assert(all.take(k + 1).drop_last() =~= all.take(k as int));
            assert(all.take(k + 1).last() == entries@[k as int]@);
        }
        let text: String = str_join(&entries[k].texts, "");
        match normalize_url(text.as_str()) {
            Some(link) => {
                if str_starts_with(link.as_str(), prefix.as_str()) && !lists(&found, &link) {
                    found.push(link);
                    assert(string_views(found@) =~= before.push(found@[found@.len() - 1]@));
                }
            },
            None => {},
        }
        k = k + 1;
    }
    assert(all.take(k as int) =~= all);
    Ok(found)
}


/// An article as plain values.
pub struct NewsArticleView {
    pub url: Seq<char>,
    pub og_title: Seq<char>,
    pub published_time: Seq<char>,
    pub og_image: Seq<char>,
    pub author: Seq<char>,
    pub text: Seq<char>,
    pub source: Seq<char>,
}

/// What an article is, as plain values.
pub open spec fn article_view(article: NewsArticle) -> NewsArticleView {
    NewsArticleView {
        url: article.url@,
        og_title: article.og_title@,
        published_time: article.published_time@,
        og_image: article.og_image@,
        author: article.author@,
        text: article.text@,
        source: article.source@,
    }
}

/// The content of a meta tag, trimmed; empty where it has none. The tag
/// carries its `property`, `name` and `content` attributes, in this order.
pub open spec fn meta_content(tag: ElementView) -> Seq<char> {
    trimmed(
        match attr_of(tag, 2) {
            Some(c) => c,
            None => Seq::empty(),
        },
    )
}

/// The content of the last meta tag whose attribute in `slot` is `key`.
pub open spec fn last_meta(tags: Seq<ElementView>, slot: int, key: Seq<char>) -> Option<Seq<char>>
    decreases tags.len(),
{
    if tags.len() == 0 {
        None
    } else if attr_of(tags.last(), slot) == Some(key) {
        Some(meta_content(tags.last()))
    } else {
        last_meta(tags.drop_last(), slot, key)
    }
}

/// Looks up the content of the last meta tag whose attribute in `slot` is
/// `key`.
pub fn meta_value(tags: &Vec<ElementData>, slot: usize, key: &str) -> (value: Option<String>)
    ensures
        optional_text(value) == last_meta(element_views(tags@), slot as int, key@),
{
    let wanted: String = key.to_owned();
    let ghost all = element_views(tags@);
    let mut k: usize = tags.len();
    assert(all.take(k as int) =~= all);
    while k > 0
        invariant
            k <= tags.len(),
            all == element_views(tags@),
            wanted@ == key@,
            last_meta(all, slot as int, key@) == last_meta(all.take(k as int), slot as int, key@),
        decreases k,
    {
        proof {
            assert(all.take(k as int).drop_last() =~= all.take(k - 1));
            assert(all.take(k as int).last() == tags@[k - 1]@);
        }
        k = k - 1;
        let tag: &ElementData = &tags[k];
        let hit: bool = match attribute(tag, slot) {
            Some(v) => *v == wanted,
            None => false,
        };
        proof {
            reveal_strlit("");
            assert(""@ =~= Seq::<char>::empty());
        }
        if hit {
            let content: String = match attribute(tag, 2) {
                Some(c) => str_trim(c.as_str()),
                None => str_trim(""),
            };
            return Some(content);
        }
    }
    None
}

/// The text of a paragraph: its text nodes joined by single spaces, trimmed.
pub open spec fn paragraph_text(texts: Seq<Seq<char>>) -> Seq<char> {
    trimmed(joined(texts, " "@))
}

/// Football365 keeps a paragraph that is not centred, has no pointing
/// hand, none of the phrases that mark links to other pages and comment
/// prompts, and is not empty.
pub open spec fn football365_keeps(style: Option<Seq<char>>, text: Seq<char>) -> bool {
    &&& style != Some("text-align: center;"@)
    &&& !contains_text(text, "\u{1F449}"@)
    &&& !contains_text(text, "READ:"@)
    &&& !contains_text(text, "PREMIER LEAGUE FEATURES ON F365"@)
    &&& !contains_text(text, "Start the conversation"@)
    &&& !contains_text(text, "Go Below The Line"@)
    &&& !contains_text(text, "Be the First to Comment"@)
    &&& !contains_text(text, "MORE LIVERPOOL COVERAGE ON F365"@)
    &&& !contains_text(text, "READ NOW:"@)
    &&& !contains_text(text, "READ MORE:"@)
    &&& text.len() > 0
}

/// Whether Football365 keeps a paragraph.
pub fn football365_keeps_paragraph(style: Option<&String>, text: &str) -> (keep: bool)
    ensures
        keep == football365_keeps(
            match style {
                Some(s) => Some(s@),
                None => None,
            },
            text@,
        ),
{
    let centred: bool = match style {
        Some(s) => {
            let centre: String = "text-align: center;".to_owned();
            *s == centre
        },
        None => false,
    };
    !centred && !str_contains(text, "\u{1F449}") && !str_contains(text, "READ:") && !str_contains(
        text,
        "PREMIER LEAGUE FEATURES ON F365",
    ) && !str_contains(text, "Start the conversation") && !str_contains(text, "Go Below The Line")
        && !str_contains(text, "Be the First to Comment") && !str_contains(
        text,
        "MORE LIVERPOOL COVERAGE ON F365",
    ) && !str_contains(text, "READ NOW:") && !str_contains(text, "READ MORE:") && !text.is_empty()
}

/// The texts of the paragraphs that Football365 keeps, in order. Each
/// paragraph carries its `style` attribute.
pub open spec fn football365_parts(paragraphs: Seq<ElementView>) -> Seq<Seq<char>>
    decreases paragraphs.len(),
{
    if paragraphs.len() == 0 {
        Seq::empty()
    } else {
        let before = football365_parts(paragraphs.drop_last());
        let text = paragraph_text(paragraphs.last().texts);
        if football365_keeps(attr_of(paragraphs.last(), 0), text) {
            before.push(text)
        } else {
            before
        }
    }
}

/// The body of a Football365 article: the kept paragraphs of the first
/// article block, separated by blank lines; empty where there is no block.
pub open spec fn football365_body(blocks: Seq<Seq<ElementView>>) -> Seq<char> {
    if blocks.len() == 0 {
        Seq::empty()
    } else {
        joined(football365_parts(blocks[0]), "\n\n"@)
    }
}

/// Builds the body of a Football365 article from its article blocks.
pub fn football365_text(blocks: &Vec<Vec<ElementData>>) -> (body: String)
    ensures
        body@ == football365_body(nested_element_views(blocks@)),
{
    let mut parts: Vec<String> = Vec::new();
    assert(string_views(parts@) =~= Seq::<Seq<char>>::empty());
    if blocks.len() == 0 {
        return str_join(&parts, "\n\n");
    }
    let paragraphs: &Vec<ElementData> = &blocks[0];
    let ghost all = element_views(paragraphs@);
    assert(nested_element_views(blocks@)[0] == all);
    let mut k: usize = 0;
    assert(all.take(0) =~= Seq::<ElementView>::empty());
    while k < paragraphs.len()
        invariant
            k <= paragraphs.len(),
            all == element_views(paragraphs@),
            string_views(parts@) == football365_parts(all.take(k as int)),
        decreases paragraphs.len() - k,
    {
        let ghost before = string_views(parts@);
        proof {
            assert(all.take(k + 1).drop_last() =~= all.take(k as int));
            assert(all.take(k + 1).last() == paragraphs@[k as int]@);
        }
        let text: String = str_trim(str_join(&paragraphs[k].texts, " ").as_str());
        if football365_keeps_paragraph(attribute(&paragraphs[k], 0), text.as_str()) {
            parts.push(text);
            assert(string_views(parts@) =~= before.push(parts@[parts@.len() - 1]@));
        }
        k = k + 1;
    }
    assert(all.take(k as int) =~= all);
    str_join(&parts, "\n\n")
}

/// The article that a page yields, given its meta tags and its body. The
/// title, the time of publication and the image are required, in this
/// order; the time has to name a moment and the image has to be a URL. An
/// author that the page does not name is replaced by `default_author`.
pub open spec fn article_from(
    url: Seq<char>,
    metas: Seq<ElementView>,
    text: Seq<char>,
    default_author: Seq<char>,
    source: Seq<char>,
) -> Result<NewsArticleView, ExtractError> {
    match last_meta(metas, 0, "og:title"@) {
        None => Err(ExtractError::MissingTitle),
        Some(og_title) => match last_meta(metas, 0, "article:published_time"@) {
            None => Err(ExtractError::MissingPublishedTime),
            Some(stamp) => match utc_time_text(stamp) {
                None => Err(ExtractError::BadPublishedTime),
                Some(published_time) => match last_meta(metas, 0, "og:image"@) {
                    None => Err(ExtractError::MissingImage),
                    Some(image) => match normalized_url(image) {
                        None => Err(ExtractError::BadImageUrl),
                        Some(og_image) => Ok(
                            NewsArticleView {
                                url,
                                og_title,
                                published_time,
                                og_image,
                                author: match last_meta(metas, 1, "author"@) {
                                    Some(a) => a,
                                    None => default_author,
                                },
                                text,
                                source,
                            },
                        ),
                    },
                },
            },
        },
    }
}

/// Puts an article together from the meta tags of its page and its body.
pub fn assemble_article(
    url: &str,
    metas: &Vec<ElementData>,
    text: String,
    default_author: &str,
    source: &str,
) -> (article: Result<NewsArticle, ExtractError>)
    ensures
        match article {
            Ok(a) => article_from(url@, element_views(metas@), text@, default_author@, source@)
                == Ok::<NewsArticleView, ExtractError>(article_view(a)),
            Err(e) => article_from(url@, element_views(metas@), text@, default_author@, source@)
                == Err::<NewsArticleView, ExtractError>(e),
        },
{
    let og_title: String = match meta_value(metas, 0, "og:title") {
        Some(t) => t,
        None => {
            return Err(ExtractError::MissingTitle);
        },
    };
    let stamp: String = match meta_value(metas, 0, "article:published_time") {
        Some(t) => t,
        None => {
            return Err(ExtractError::MissingPublishedTime);
        },
    };
    let published_time: String = match parse_utc_time(stamp.as_str()) {
        Some(t) => t,
        None => {
            return Err(ExtractError::BadPublishedTime);
        },
    };
    let image: String = match meta_value(metas, 0, "og:image") {
        Some(t) => t,
        None => {
            return Err(ExtractError::MissingImage);
        },
    };
    let og_image: String = match normalize_url(image.as_str()) {
        Some(t) => t,
        None => {
            return Err(ExtractError::BadImageUrl);
        },
    };
    let author: String = match meta_value(metas, 1, "author") {
        Some(a) => a,
        None => default_author.to_owned(),
    };
    Ok(
        NewsArticle {
            url: url.to_owned(),
            og_title,
            published_time,
            og_image,
            author,
            text,
            source: source.to_owned(),
        },
    )
}

/// The article of a Football365 page.
pub open spec fn football365_article(url: Seq<char>, html: Seq<char>) -> Result<
    NewsArticleView,
    ExtractError,
> {
    match (
        html_selection(html, "head meta"@, seq!["property"@, "name"@, "content"@]),
        html_nested_selection(html, "div.ciam-article-f365"@, "p, blockquote"@, seq!["style"@]),
    ) {
        (Some(metas), Some(blocks)) => article_from(
            url,
            metas,
            football365_body(blocks),
            "Unknown"@,
            "football365"@,
        ),
        _ => Err(ExtractError::Unreadable),
    }
}

/// Reads the article out of a Football365 page that was fetched from `url`.
pub fn extract_article(url: &str, html: &str) -> (article: Result<NewsArticle, ExtractError>)
    ensures
        match article {
            Ok(a) => football365_article(url@, html@) == Ok::<NewsArticleView, ExtractError>(
                article_view(a),
            ),
            Err(e) => football365_article(url@, html@) == Err::<NewsArticleView, ExtractError>(e),
        },
{
    let meta_names: Vec<String> = names3("property", "name", "content");
    let style_name: Vec<String> = names1("style");
    let metas: Vec<ElementData> = match select_elements(html, "head meta", &meta_names) {
        Some(m) => m,
        None => {
            return Err(ExtractError::Unreadable);
        },
    };
    let blocks: Vec<Vec<ElementData>> = match select_nested(
        html,
        "div.ciam-article-f365",
        "p, blockquote",
        &style_name,
    ) {
        Some(b) => b,
        None => {
            return Err(ExtractError::Unreadable);
        },
    };
    let text: String = football365_text(&blocks);
    assemble_article(url, &metas, text, "Unknown", "football365")
}


/// The text of a This Is Anfield paragraph: its text nodes joined by
/// single spaces and trimmed, or, where that is empty and the paragraph
/// still holds markup, that markup cleaned. `None` where cleaning fails.
pub open spec fn thisisanfield_paragraph_text(paragraph: ElementView) -> Option<Seq<char>> {
    let text = paragraph_text(paragraph.texts);
    if text.len() == 0 && trimmed(paragraph.inner_html).len() > 0 {
        cleaned_html(paragraph.inner_html)
    } else {
        Some(text)
    }
}

/// Reads the text of a This Is Anfield paragraph.
pub fn thisisanfield_text_of(paragraph: &ElementData) -> (text: Option<String>)
    ensures
        optional_text(text) == thisisanfield_paragraph_text(paragraph@),
{
    let text: String = str_trim(str_join(&paragraph.texts, " ").as_str());
    if text.as_str().is_empty() && !str_trim(paragraph.inner_html.as_str()).as_str().is_empty() {
        clean_html_tags(paragraph.inner_html.as_str())
    } else {
        Some(text)
    }
}

/// The phrases that mark a paragraph as no part of the article, wherever
/// the paragraph stands.
pub open spec fn has_promotion(text: Seq<char>) -> bool {
    ||| contains_text(text, "READ MORE:"@)
    ||| contains_text(text, "WATCH:"@)
    ||| contains_text(text, "Follow us on"@)
    ||| contains_text(text, "Get our free app"@)
    ||| contains_text(text, "Click here to get it"@)
    ||| contains_text(text, "More about:"@)
    ||| contains_text(text, "\u{a9} Copyright"@)
    ||| starts_with_text(text, "Liverpool:"@)
    ||| starts_with_text(text, "Burnley:"@)
}

/// Whether a paragraph holds one of the phrases that mark it as no part of
/// the article.
pub fn mentions_promotion(text: &str) -> (found: bool)
    ensures
        found == has_promotion(text@),
{
    str_contains(text, "READ MORE:") || str_contains(text, "WATCH:") || str_contains(
        text,
        "Follow us on",
    ) || str_contains(text, "Get our free app") || str_contains(text, "Click here to get it")
        || str_contains(text, "More about:") || str_contains(text, "\u{a9} Copyright")
        || str_starts_with(text, "Liverpool:") || str_starts_with(text, "Burnley:")
}

/// A paragraph inside an article block is kept where it takes at least
/// twenty bytes and holds neither a promotion nor a list of substitutes.
pub open spec fn thisisanfield_keeps(text: Seq<char>) -> bool {
    &&& utf8_len(text) >= 20
    &&& !has_promotion(text)
    &&& !contains_text(text, "Substitutes:"@)
}

/// Whether a paragraph inside an article block is kept.
pub fn thisisanfield_keeps_paragraph(text: &str) -> (keep: bool)
    ensures
        keep == thisisanfield_keeps(text@),
{
    byte_len(text) >= 20 && !mentions_promotion(text) && !str_contains(text, "Substitutes:")
}

/// A paragraph anywhere on the page is kept where it takes at least thirty
/// bytes and holds no promotion.
pub open spec fn thisisanfield_keeps_loose(text: Seq<char>) -> bool {
    &&& utf8_len(text) >= 30
    &&& !has_promotion(text)
}

/// Whether a paragraph anywhere on the page is kept.
pub fn thisisanfield_keeps_loose_paragraph(text: &str) -> (keep: bool)
    ensures
        keep == thisisanfield_keeps_loose(text@),
{
    byte_len(text) >= 30 && !mentions_promotion(text)
}

/// The texts of the paragraphs that are kept, in order: by the rule for
/// article blocks, or, where `loose`, by the rule for the whole page. `None`
/// where cleaning a paragraph fails.
pub open spec fn thisisanfield_parts(paragraphs: Seq<ElementView>, loose: bool) -> Option<
    Seq<Seq<char>>,
>
    decreases paragraphs.len(),
{
    if paragraphs.len() == 0 {
        Some(Seq::empty())
    } else {
        match (
            thisisanfield_parts(paragraphs.drop_last(), loose),
            thisisanfield_paragraph_text(paragraphs.last()),
        ) {
            (Some(before), Some(text)) => if (if loose {
                thisisanfield_keeps_loose(text)
            } else {
                thisisanfield_keeps(text)
            }) {
                Some(before.push(text))
            } else {
                Some(before)
            },
            _ => None,
        }
    }
}

/// Collects the texts of the paragraphs that are kept.
pub fn thisisanfield_kept(paragraphs: &Vec<ElementData>, loose: bool) -> (parts: Option<
    Vec<String>,
>)
    ensures
        match parts {
            Some(p) => thisisanfield_parts(element_views(paragraphs@), loose) == Some(
                string_views(p@),
            ),
            None => thisisanfield_parts(element_views(paragraphs@), loose) is None,
        },
{
    let ghost all = element_views(paragraphs@);
    let mut parts: Vec<String> = Vec::new();
    let mut failed: bool = false;
    let mut k: usize = 0;
    assert(all.take(0) =~= Seq::<ElementView>::empty());
    assert(string_views(parts@) =~= Seq::<Seq<char>>::empty());
    while k < paragraphs.len()
        invariant
            k <= paragraphs.len(),
            all == element_views(paragraphs@),
            failed ==> thisisanfield_parts(all.take(k as int), loose) is None,
            !failed ==> thisisanfield_parts(all.take(k as int), loose) == Some(
                string_views(parts@),
            ),
        decreases paragraphs.len() - k,
    {
        let ghost before = string_views(parts@);
        proof {
            assert(all.take(k + 1).drop_last() =~= all.take(k as int));
            assert(all.take(k + 1).last() == paragraphs@[k as int]@);
        }
        if !failed {
            match thisisanfield_text_of(&paragraphs[k]) {
                Some(text) => {
                    let keep: bool = if loose {
                        thisisanfield_keeps_loose_paragraph(text.as_str())
                    } else {
                        thisisanfield_keeps_paragraph(text.as_str())
                    };
                    if keep {
                        parts.push(text);
                        assert(string_views(parts@) =~= before.push(parts@[parts@.len() - 1]@));
                    }
                },
                None => {
                    failed = true;
                },
            }
        }
        k = k + 1;
    }
    assert(all.take(k as int) =~= all);
    if failed {
        None
    } else {
        Some(parts)
    }
}

/// The kept paragraphs of the first article block that has any; none where
/// no block has. `None` where cleaning fails in a block that is looked at.
pub open spec fn thisisanfield_block_parts(blocks: Seq<Seq<ElementView>>) -> Option<
    Seq<Seq<char>>,
>
    decreases blocks.len(),
{
    if blocks.len() == 0 {
        Some(Seq::empty())
    } else {
        match thisisanfield_parts(blocks.first(), false) {
            Some(parts) => if parts.len() > 0 {
                Some(parts)
            } else {
                thisisanfield_block_parts(blocks.drop_first())
            },
            None => None,
        }
    }
}

/// Collects the kept paragraphs of the first article block that has any.
pub fn thisisanfield_first_block(blocks: &Vec<Vec<ElementData>>) -> (parts: Option<Vec<String>>)
    ensures
        match parts {
            Some(p) => thisisanfield_block_parts(nested_element_views(blocks@)) == Some(
                string_views(p@),
            ),
            None => thisisanfield_block_parts(nested_element_views(blocks@)) is None,
        },
{
    let ghost all = nested_element_views(blocks@);
    let mut k: usize = 0;
    assert(all.skip(0) =~= all);
    while k < blocks.len()
        invariant
            k <= blocks.len(),
            all == nested_element_views(blocks@),
            thisisanfield_block_parts(all) == thisisanfield_block_parts(all.skip(k as int)),
        decreases blocks.len() - k,
    {
        proof {
            assert(all.skip(k as int).drop_first() =~= all.skip(k + 1));
            assert(all.skip(k as int).first() == element_views(blocks@[k as int]@));
        }
        match thisisanfield_kept(&blocks[k], false) {
            Some(parts) => {
                if parts.len() > 0 {
                    return Some(parts);
                }
            },
            None => {
                return None;
            },
        }
        k = k + 1;
    }
    let none: Vec<String> = Vec::new();
    assert(string_views(none@) =~= Seq::<Seq<char>>::empty());
    Some(none)
}

/// The body of a This Is Anfield article: the kept paragraphs of the first
/// article block that has any, or else the kept paragraphs of the whole
/// page, separated by blank lines and cleaned once more. `None` where
/// cleaning fails.
pub open spec fn thisisanfield_body(
    blocks: Seq<Seq<ElementView>>,
    paragraphs: Seq<ElementView>,
) -> Option<Seq<char>> {
    match thisisanfield_block_parts(blocks) {
        Some(parts) => if parts.len() > 0 {
            cleaned_html(joined(parts, "\n\n"@))
        } else {
            match thisisanfield_parts(paragraphs, true) {
                Some(loose) => cleaned_html(joined(loose, "\n\n"@)),
                None => None,
            }
        },
        None => None,
    }
}

/// Builds the body of a This Is Anfield article from its article blocks
/// and from all its paragraphs.
pub fn thisisanfield_text(blocks: &Vec<Vec<ElementData>>, paragraphs: &Vec<ElementData>) -> (body:
    Option<String>)
    ensures
        optional_text(body) == thisisanfield_body(
            nested_element_views(blocks@),
            element_views(paragraphs@),
        ),
{
    let parts: Vec<String> = match thisisanfield_first_block(blocks) {
        Some(p) => p,
        None => {
            return None;
        },
    };
    let parts: Vec<String> = if parts.len() > 0 {
        parts
    } else {
        match thisisanfield_kept(paragraphs, true) {
            Some(p) => p,
            None => {
                return None;
            },
        }
    };
    clean_html_tags(str_join(&parts, "\n\n").as_str())
}

/// The article of a This Is Anfield page.
pub open spec fn thisisanfield_article(url: Seq<char>, html: Seq<char>) -> Result<
    NewsArticleView,
    ExtractError,
> {
    match (
        html_selection(html, "head meta"@, seq!["property"@, "name"@, "content"@]),
        html_nested_selection(html, "article, .post, .entry, main"@, "p"@, Seq::empty()),
        html_selection(html, "p"@, Seq::empty()),
    ) {
        (Some(metas), Some(blocks), Some(paragraphs)) => match thisisanfield_body(
            blocks,
            paragraphs,
        ) {
            Some(text) => article_from(url, metas, text, "This Is Anfield"@, "thisisanfield"@),
            None => Err(ExtractError::Unreadable),
        },
        _ => Err(ExtractError::Unreadable),
    }
}

/// Reads the article out of a This Is Anfield page that was fetched from
/// `url`.
pub fn extract_thisisanfield_article(url: &str, html: &str) -> (article: Result<
    NewsArticle,
    ExtractError,
>)
    ensures
        match article {
            Ok(a) => thisisanfield_article(url@, html@) == Ok::<NewsArticleView, ExtractError>(
                article_view(a),
            ),
            Err(e) => thisisanfield_article(url@, html@) == Err::<NewsArticleView, ExtractError>(
                e,
            ),
        },
{
    let meta_names: Vec<String> = names3("property", "name", "content");
    let no_names: Vec<String> = Vec::new();
    assert(string_views(no_names@) =~= Seq::<Seq<char>>::empty());
    let metas: Vec<ElementData> = match select_elements(html, "head meta", &meta_names) {
        Some(m) => m,
        None => {
            return Err(ExtractError::Unreadable);
        },
    };
    let blocks: Vec<Vec<ElementData>> = match select_nested(
        html,
        "article, .post, .entry, main",
        "p",
        &no_names,
    ) {
        Some(b) => b,
        None => {
            return Err(ExtractError::Unreadable);
        },
    };
    let paragraphs: Vec<ElementData> = match select_elements(html, "p", &no_names) {
        Some(p) => p,
        None => {
            return Err(ExtractError::Unreadable);
        },
    };
    let text: String = match thisisanfield_text(&blocks, &paragraphs) {
        Some(t) => t,
        None => {
            return Err(ExtractError::Unreadable);
        },
    };
    assemble_article(url, &metas, text, "This Is Anfield", "thisisanfield")
}


/// `links` followed by the addresses of `more` that are not listed yet,
/// each once, in their order.
pub open spec fn with_new_links(links: Seq<Seq<char>>, more: Seq<Seq<char>>) -> Seq<Seq<char>>
    decreases more.len(),
{
    if more.len() == 0 {
        links
    } else {
        let before = with_new_links(links, more.drop_last());
        if lists_text(before, more.last()) {
            before
        } else {
            before.push(more.last())
        }
    }
}

/// Adds the addresses of `more` that `links` does not list yet.
pub fn add_new_links(links: Vec<String>, more: &Vec<String>) -> (all: Vec<String>)
    ensures
        string_views(all@) == with_new_links(string_views(links@), string_views(more@)),
{
    let ghost start = string_views(links@);
    let ghost added = string_views(more@);
    let mut all: Vec<String> = links;
    let mut k: usize = 0;
    assert(added.take(0) =~= Seq::<Seq<char>>::empty());
    while k < more.len()
        invariant
            k <= more.len(),
            added == string_views(more@),
            string_views(all@) == with_new_links(start, added.take(k as int)),
        decreases more.len() - k,
    {
        let ghost before = string_views(all@);
        proof {
            assert(added.take(k + 1).drop_last() =~= added.take(k as int));
            assert(added.take(k + 1).last() == more@[k as int]@);
        }
        if !lists(&all, &more[k]) {
            all.push(more[k].clone());
            assert(string_views(all@) =~= before.push(more@[k as int]@));
        }
        k = k + 1;
    }
    assert(added.take(k as int) =~= added);
    all
}

/// The addresses of `found` that `known` does not list, in their order.
pub open spec fn unknown_links(found: Seq<Seq<char>>, known: Seq<Seq<char>>) -> Seq<Seq<char>>
    decreases found.len(),
{
    if found.len() == 0 {
        Seq::empty()
    } else {
        let before = unknown_links(found.drop_last(), known);
        if lists_text(known, found.last()) {
            before
        } else {
            before.push(found.last())
        }
    }
}

/// Leaves out the addresses that are known already.
pub fn links_not_in(found: &Vec<String>, known: &Vec<String>) -> (fresh: Vec<String>)
    ensures
        string_views(fresh@) == unknown_links(string_views(found@), string_views(known@)),
{
    let ghost all = string_views(found@);
    let mut fresh: Vec<String> = Vec::new();
    let mut k: usize = 0;
    assert(all.take(0) =~= Seq::<Seq<char>>::empty());
    assert(string_views(fresh@) =~= Seq::<Seq<char>>::empty());
    while k < found.len()
        invariant
            k <= found.len(),
            all == string_views(found@),
            string_views(fresh@) == unknown_links(all.take(k as int), string_views(known@)),
        decreases found.len() - k,
    {
        let ghost before = string_views(fresh@);
        proof {
            assert(all.take(k + 1).drop_last() =~= all.take(k as int));
            assert(all.take(k + 1).last() == found@[k as int]@);
        }
        if !lists(known, &found[k]) {
            fresh.push(found[k].clone());
            assert(string_views(fresh@) =~= before.push(found@[k as int]@));
        }
        k = k + 1;
    }
    assert(all.take(k as int) =~= all);
    fresh
}

/// The host of an address, as the `url` crate reads it; `None` where the
/// text is no URL or the URL has no host.
pub uninterp spec fn url_host(text: Seq<char>) -> Option<Seq<char>>;

/// Reads the host of an address with `url::Url::parse` and `Url::host_str`.
/// The result is a function of the text alone.
#[verifier::external_body]
fn host_of(text: &str) -> (host: Option<String>)
    ensures
        optional_text(host) == url_host(text@),
{
    url::Url::parse(text).ok()?.host_str().map(str::to_string)
}

/// The site whose reader an address needs.
pub open spec fn site_for(url: Seq<char>) -> Site {
    if url_host(url) == Some("www.thisisanfield.com"@) {
        Site::ThisIsAnfield
    } else {
        Site::Football365
    }
}

/// Decides which reader an address needs.
pub fn site_of_url(url: &str) -> (site: Site)
    ensures
        site == site_for(url@),
{
    match host_of(url) {
        Some(h) => site_of_host(Some(h.as_str())),
        None => site_of_host(None),
    }
}


/// The article of a page, read as the site of its address asks.
pub open spec fn article_of_page(url: Seq<char>, html: Seq<char>) -> Result<
    NewsArticleView,
    ExtractError,
> {
    match site_for(url) {
        Site::ThisIsAnfield => thisisanfield_article(url, html),
        Site::Football365 => football365_article(url, html),
    }
}

/// Reads the article out of a page that was fetched from `url`, with the
/// reader of the site that the address belongs to.
pub fn read_article(url: &str, html: &str) -> (article: Result<NewsArticle, ExtractError>)
    ensures
        match article {
            Ok(a) => article_of_page(url@, html@) == Ok::<NewsArticleView, ExtractError>(
                article_view(a),
            ),
            Err(e) => article_of_page(url@, html@) == Err::<NewsArticleView, ExtractError>(e),
        },
{
    match site_of_url(url) {
        Site::ThisIsAnfield => extract_thisisanfield_article(url, html),
        Site::Football365 => extract_article(url, html),
    }
}


/// The article links of both sites: those of the Football365 news page,
/// then those of the This Is Anfield sitemap that are not listed yet.
pub open spec fn all_article_links(
    football365_page: Seq<char>,
    thisisanfield_sitemap: Seq<char>,
    year: int,
) -> Option<Seq<Seq<char>>> {
    match (football365_links(football365_page), thisisanfield_links(thisisanfield_sitemap, year)) {
        (Some(first), Some(second)) => Some(with_new_links(first, second)),
        _ => None,
    }
}

/// Reads the article links of both sites out of the news page of
/// Football365 and the sitemap of This Is Anfield.
pub fn discover_all_articles(football365_page: &str, thisisanfield_sitemap: &str, year: i32) -> (links:
    Result<Vec<String>, ExtractError>)
    ensures
        match links {
            Ok(found) => all_article_links(
                football365_page@,
                thisisanfield_sitemap@,
                year as int,
            ) == Some(string_views(found@)),
            Err(e) => e == ExtractError::Unreadable && all_article_links(
                football365_page@,
                thisisanfield_sitemap@,
                year as int,
            ) is None,
        },
{
    let first: Vec<String> = match extract_football365_articles(football365_page) {
        Ok(f) => f,
        Err(e) => {
            return Err(e);
        },
    };
    let second: Vec<String> = match extract_thisisanfield_articles(thisisanfield_sitemap, year) {
        Ok(s) => s,
        Err(e) => {
            return Err(e);
        },
    };
    Ok(add_new_links(first, &second))
}

} // verus!
