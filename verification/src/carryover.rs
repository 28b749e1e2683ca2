//! Merging today's bullets with the accepted bullets that earlier runs left
//! unpublished.

use crate::models::{
    all_say_something, bullet_views, duplicate_bullets, Bullet, BulletView, Summary, SummaryView,
};
use vstd::prelude::*;

verus! {

/// Some bullet of the list has exactly this text.
pub open spec fn has_text(items: Seq<BulletView>, text: Seq<char>) -> bool {
    exists|i: int| 0 <= i < items.len() && (#[trigger] items[i]).text == text
}

/// No two bullets of the list have the same text.
pub open spec fn no_duplicate_texts(items: Seq<BulletView>) -> bool {
    forall|i: int, j: int|
        0 <= i < j < items.len() ==> (#[trigger] items[i]).text != (#[trigger] items[j]).text
}

/// Today's bullets followed by the carryover bullets whose text has not
/// been seen yet, each of those waiting to be judged again. Texts are
/// compared character for character.
pub open spec fn merged(today: Seq<BulletView>, carryover: Seq<BulletView>) -> Seq<BulletView>
    decreases carryover.len(),
{
    if carryover.len() == 0 {
        today
    } else {
        let before = merged(today, carryover.drop_last());
        let next = carryover.last();
        if has_text(before, next.text) {
            before
        } else {
            before.push(BulletView { text: next.text, accepted: None })
        }
    }
}

/// Today's bullets come first in a merge, each as it was and in its place.
pub proof fn lemma_merge_keeps_today_first(today: Seq<BulletView>, carryover: Seq<BulletView>)
    ensures
        merged(today, carryover).len() >= today.len(),
        merged(today, carryover).take(today.len() as int) == today,
    decreases carryover.len(),
{
    if carryover.len() == 0 {
        assert(today.take(today.len() as int) =~= today);
    } else {
        lemma_merge_keeps_today_first(today, carryover.drop_last());
        let before = merged(today, carryover.drop_last());
        assert(merged(today, carryover).take(today.len() as int) =~= before.take(
            today.len() as int,
        ));
    }
}

/// What follows today's bullets in a merge comes from the carryover list,
/// in the order of that list, with every decision reset: `source` maps each
/// such bullet to a carryover position, and later bullets to later positions.
pub proof fn lemma_merge_appends_in_order(
    today: Seq<BulletView>,
    carryover: Seq<BulletView>,
) -> (source: Seq<int>)
    ensures
        merged(today, carryover).len() == today.len() + source.len(),
        forall|k: int|
            0 <= k < source.len() ==> 0 <= #[trigger] source[k] < carryover.len(),
        forall|k: int|
            0 <= k < source.len() ==> #[trigger] merged(today, carryover)[today.len() + k] == (
            BulletView { text: carryover[source[k]].text, accepted: None }),
        forall|k: int, l: int|
            0 <= k < l < source.len() ==> #[trigger] source[k] < #[trigger] source[l],
    decreases carryover.len(),
{
    if carryover.len() == 0 {
        Seq::empty()
    } else {
        let front = carryover.drop_last();
        let earlier = lemma_merge_appends_in_order(today, front);
        let before = merged(today, front);
        if has_text(before, carryover.last().text) {
            earlier
        } else {
            earlier.push(carryover.len() - 1)
        }
    }
}

/// Where today's bullets have no text twice, a merge has no text twice.
pub proof fn lemma_merge_has_no_duplicates(today: Seq<BulletView>, carryover: Seq<BulletView>)
    requires
        no_duplicate_texts(today),
    ensures
        no_duplicate_texts(merged(today, carryover)),
    decreases carryover.len(),
{
    if carryover.len() > 0 {
        lemma_merge_has_no_duplicates(today, carryover.drop_last());
    }
}

/// Every text of either list is in the merge.
pub proof fn lemma_merge_covers_inputs(today: Seq<BulletView>, carryover: Seq<BulletView>)
    ensures
        forall|i: int| 0 <= i < today.len() ==> has_text(merged(today, carryover), (#[trigger] today[i]).text),
        forall|j: int|
            0 <= j < carryover.len() ==> has_text(merged(today, carryover), (#[trigger] carryover[j]).text),
    decreases carryover.len(),
{
    let out = merged(today, carryover);
    if carryover.len() == 0 {
        assert forall|i: int| 0 <= i < today.len() implies has_text(out, (#[trigger] today[i]).text) by {
            assert(out[i].text == today[i].text);
        }
    } else {
        let front = carryover.drop_last();
        lemma_merge_covers_inputs(today, front);
        let before = merged(today, front);
        assert forall|t: Seq<char>| has_text(before, t) implies has_text(out, t) by {
            let w = choose|w: int| 0 <= w < before.len() && (#[trigger] before[w]).text == t;
            assert(out[w].text == t);
        }
        assert(has_text(out, carryover.last().text)) by {
            if !has_text(before, carryover.last().text) {
                assert(out[out.len() - 1].text == carryover.last().text);
            }
        }
        assert forall|j: int| 0 <= j < carryover.len() implies has_text(
            out,
            (#[trigger] carryover[j]).text,
        ) by {
            if j < front.len() {
                assert(front[j] == carryover[j]);
            }
        }
    }
}

/// Where no text of either list is empty, no text of the merge is.
pub proof fn lemma_merge_keeps_texts(today: Seq<BulletView>, carryover: Seq<BulletView>)
    requires
        all_say_something(today),
        all_say_something(carryover),
    ensures
        all_say_something(merged(today, carryover)),
    decreases carryover.len(),
{
    if carryover.len() > 0 {
        let front = carryover.drop_last();
        assert forall|i: int| 0 <= i < front.len() implies (#[trigger] front[i]).text.len()
            > 0 by {
            assert(front[i] == carryover[i]);
        }
        lemma_merge_keeps_texts(today, front);
        assert(carryover[carryover.len() - 1].text.len() > 0);
    }
}

/// Whether some bullet of the list has exactly this text.
pub fn contains_text(items: &Vec<Bullet>, text: &String) -> (found: bool)
    ensures
        found == has_text(bullet_views(items@), text@),
{
    let mut k: usize = 0;
    while k < items.len()
        invariant
            k <= items.len(),
            forall|i: int| 0 <= i < k ==> (#[trigger] bullet_views(items@)[i]).text != text@,
        decreases items.len() - k,
    {
        if items[k].text == *text {
            assert(bullet_views(items@)[k as int].text == text@);
            return true;
        }
        k = k + 1;
    }
    false
}

/// Merges today's bullets with the carryover bullets: today's bullets stay
/// as they are and in their order; each carryover bullet whose text is new
/// follows, in retrieval order, with its decision reset.
pub fn merge_bullets(today: &Vec<Bullet>, carryover: &Vec<Bullet>) -> (out: Vec<Bullet>)
    ensures
        bullet_views(out@) == merged(bullet_views(today@), bullet_views(carryover@)),
        out@.len() >= today@.len(),
        bullet_views(out@).take(today@.len() as int) == bullet_views(today@),
        no_duplicate_texts(bullet_views(today@)) ==> no_duplicate_texts(bullet_views(out@)),
        all_say_something(bullet_views(today@)) && all_say_something(bullet_views(carryover@))
            ==> all_say_something(bullet_views(out@)),
{
    let mut out: Vec<Bullet> = duplicate_bullets(today);
    let mut k: usize = 0;
    assert(bullet_views(carryover@).take(0) =~= Seq::<BulletView>::empty());
    while k < carryover.len()
        invariant
            k <= carryover.len(),
            bullet_views(out@) == merged(
                bullet_views(today@),
                bullet_views(carryover@).take(k as int),
            ),
        decreases carryover.len() - k,
    {
        let ghost before = bullet_views(out@);
        proof {
            let upto = bullet_views(carryover@).take(k + 1);
            assert(upto.drop_last() =~= bullet_views(carryover@).take(k as int));
            assert(upto.last() == carryover@[k as int]@);
        }
        if !contains_text(&out, &carryover[k].text) {
            out.push(carryover[k].requeued());
            assert(bullet_views(out@) =~= before.push(
                BulletView { text: carryover@[k as int]@.text, accepted: None },
            ));
        }
        k = k + 1;
    }
    proof {
        assert(bullet_views(carryover@).take(k as int) =~= bullet_views(carryover@));
        lemma_merge_keeps_today_first(bullet_views(today@), bullet_views(carryover@));
        if no_duplicate_texts(bullet_views(today@)) {
            lemma_merge_has_no_duplicates(bullet_views(today@), bullet_views(carryover@));
        }
        if all_say_something(bullet_views(today@)) && all_say_something(
            bullet_views(carryover@),
        ) {
            lemma_merge_keeps_texts(bullet_views(today@), bullet_views(carryover@));
        }
    }
    out
}

/// Today's summary with the new carryover bullets appended to its items;
/// mood and date stay as they are.
pub fn merge_carryover(summary: &Summary, carryover: &Vec<Bullet>) -> (out: Summary)
    ensures
        out@ == (SummaryView {
            mood: summary@.mood,
            items: merged(summary@.items, bullet_views(carryover@)),
            date: summary@.date,
        }),
{
    Summary {
        mood: summary.mood.clone(),
        items: merge_bullets(&summary.items, carryover),
        date: summary.date,
    }
}

} // verus!
