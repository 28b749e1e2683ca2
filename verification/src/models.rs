//! The records that pass between the stages of a run.

use vstd::prelude::*;

verus! {

/// `chrono::NaiveDate`, carried through as an opaque value.
#[verifier::external_type_specification]
#[verifier::external_body]
pub struct ExNaiveDate(chrono::NaiveDate);

/// One news point with its classification state: `None` while it waits to
/// be judged, `Some(true)` once accepted, `Some(false)` once rejected.
#[derive(Debug, Clone)]
pub struct Bullet {
    pub text: String,
    pub accepted: Option<bool>,
}

/// What a bullet is, as plain values.
pub struct BulletView {
    pub text: Seq<char>,
    pub accepted: Option<bool>,
}

impl View for Bullet {
    type V = BulletView;

    open spec fn view(&self) -> BulletView {
        BulletView { text: self.text@, accepted: self.accepted }
    }
}

/// Every bullet of the list says something: no text is empty.
pub open spec fn all_say_something(items: Seq<BulletView>) -> bool {
    forall|i: int| 0 <= i < items.len() ==> (#[trigger] items[i]).text.len() > 0
}

impl Bullet {
    /// A bullet says something: its text is not empty.
    pub open spec fn is_well_formed(&self) -> bool {
        self@.text.len() > 0
    }

    /// Makes a bullet that waits to be judged. `None` is returned exactly
    /// where the text is empty.
    pub fn new(text: String) -> (bullet: Option<Bullet>)
        ensures
            match bullet {
                Some(b) => b.is_well_formed() && b@ == (BulletView { text: text@, accepted: None }),
                None => text@.len() == 0,
            },
    {
        if text.as_str().is_empty() {
            None
        } else {
            Some(Bullet { text, accepted: None })
        }
    }

    /// A copy of this bullet.
    pub fn duplicate(&self) -> (copy: Bullet)
        ensures
            copy@ == self@,
    {
        Bullet { text: self.text.clone(), accepted: self.accepted }
    }

    /// The same text, waiting to be judged again.
    pub fn requeued(&self) -> (copy: Bullet)
        ensures
            copy@ == (BulletView { text: self@.text, accepted: None }),
    {
        Bullet { text: self.text.clone(), accepted: None }
    }

    /// The same text with the given decision.
    pub fn decided(&self, accepted: bool) -> (copy: Bullet)
        ensures
            copy@ == (BulletView { text: self@.text, accepted: Some(accepted) }),
    {
        Bullet { text: self.text.clone(), accepted: Some(accepted) }
    }
}

/// The bullets of a list as plain values, in order.
pub open spec fn bullet_views(items: Seq<Bullet>) -> Seq<BulletView> {
    Seq::new(items.len(), |i: int| items[i]@)
}

/// Copies a list of bullets.
pub fn duplicate_bullets(items: &Vec<Bullet>) -> (copy: Vec<Bullet>)
    ensures
        bullet_views(copy@) == bullet_views(items@),
{
    let mut copy: Vec<Bullet> = Vec::new();
    let mut k: usize = 0;
    while k < items.len()
        invariant
            k <= items.len(),
            copy@.len() == k,
            forall|i: int| 0 <= i < k ==> (#[trigger] copy@[i])@ == items@[i]@,
        decreases items.len() - k,
    {
        copy.push(items[k].duplicate());
        k = k + 1;
    }
    assert(bullet_views(copy@) =~= bullet_views(items@));
    copy
}

/// The summary of one run: a mood sentence and the bullets in the order in
/// which they are shown to the classifier.
#[derive(Debug)]
pub struct Summary {
    pub mood: String,
    pub items: Vec<Bullet>,
    pub date: chrono::NaiveDate,
}

/// What a summary is, as plain values.
pub struct SummaryView {
    pub mood: Seq<char>,
    pub items: Seq<BulletView>,
    pub date: chrono::NaiveDate,
}

impl View for Summary {
    type V = SummaryView;

    open spec fn view(&self) -> SummaryView {
        SummaryView { mood: self.mood@, items: bullet_views(self.items@), date: self.date }
    }
}

impl Clone for Summary {
    /// A copy with the same mood, bullets and date.
    fn clone(&self) -> (copy: Summary)
        ensures
            copy@ == self@,
    {
        Summary { mood: self.mood.clone(), items: duplicate_bullets(&self.items), date: self.date }
    }
}

/// One scraped article. `url` and `og_image` are URLs in their normal
/// form; `published_time` is a moment in UTC, written as RFC 3339 has it.
#[derive(Debug, Clone, PartialEq, Eq)]
pub struct NewsArticle {
    pub url: String,
    pub og_title: String,
    pub published_time: String,
    pub og_image: String,
    pub author: String,
    pub text: String,
    pub source: String,
}

} // verus!
