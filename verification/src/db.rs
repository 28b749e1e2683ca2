//! The bullet store: every fetch run with its summary, and which of them
//! has been published.

use crate::ai_deduplicator::decided;
use crate::carryover::{contains_text, has_text, no_duplicate_texts};
use crate::models::{
    bullet_views, duplicate_bullets, Bullet, BulletView, Summary, SummaryView,
};
use vstd::prelude::*;

verus! {

/// The summary that a fetch holds: its mood and its bullets, in the order
/// in which they were stored.
#[derive(Debug, Clone)]
pub struct StoredSummary {
    pub mood: String,
    pub bullets: Vec<Bullet>,
}

/// One fetch run. `generated_at` counts seconds; `sent` says that the
/// fetch has been published.
#[derive(Debug, Clone)]
pub struct FetchRecord {
    pub id: i64,
    pub generated_at: i64,
    pub sent: bool,
    pub summary: Option<StoredSummary>,
}

/// A stored summary as plain values.
pub struct StoredSummaryView {
    pub mood: Seq<char>,
    pub bullets: Seq<BulletView>,
}

/// A fetch as plain values.
pub struct FetchView {
    pub id: i64,
    pub generated_at: i64,
    pub sent: bool,
    pub summary: Option<StoredSummaryView>,
}

impl View for StoredSummary {
    type V = StoredSummaryView;

    open spec fn view(&self) -> StoredSummaryView {
        StoredSummaryView { mood: self.mood@, bullets: bullet_views(self.bullets@) }
    }
}

impl View for FetchRecord {
    type V = FetchView;

    open spec fn view(&self) -> FetchView {
        FetchView {
            id: self.id,
            generated_at: self.generated_at,
            sent: self.sent,
            summary: match self.summary {
                Some(s) => Some(s@),
                None => None,
            },
        }
    }
}

/// The fetches of a list as plain values, in order.
pub open spec fn fetch_views(records: Seq<FetchRecord>) -> Seq<FetchView> {
    Seq::new(records.len(), |i: int| records[i]@)
}

/// A fetch counts as published when it is marked sent and holds a summary.
pub open spec fn is_published(fetch: FetchView) -> bool {
    fetch.sent && fetch.summary is Some
}

/// Position of the most recent published fetch: the one generated last,
/// and among several of the same moment the one stored last.
pub open spec fn latest_published(fetches: Seq<FetchView>) -> Option<int>
    decreases fetches.len(),
{
    if fetches.len() == 0 {
        None
    } else {
        let earlier = latest_published(fetches.drop_last());
        let last = fetches.last();
        if is_published(last) && (earlier is None || fetches[earlier->0].generated_at
            <= last.generated_at) {
            Some(fetches.len() - 1)
        } else {
            earlier
        }
    }
}

/// What `latest_published` finds: a published fetch that no published fetch
/// is younger than, and `None` only where nothing is published.
pub proof fn lemma_latest_published(fetches: Seq<FetchView>)
    ensures
        match latest_published(fetches) {
            Some(i) => {
                &&& 0 <= i < fetches.len()
                &&& is_published(fetches[i])
                &&& forall|j: int|
                    0 <= j < fetches.len() && is_published(#[trigger] fetches[j])
                        ==> fetches[j].generated_at <= fetches[i].generated_at
                &&& forall|j: int|
                    i < j < fetches.len() && is_published(#[trigger] fetches[j])
                        ==> fetches[j].generated_at < fetches[i].generated_at
            },
            None => forall|j: int| 0 <= j < fetches.len() ==> !is_published(#[trigger] fetches[j]),
        },
    decreases fetches.len(),
{
    if fetches.len() > 0 {
        let front = fetches.drop_last();
        lemma_latest_published(front);
        assert forall|j: int| 0 <= j < front.len() implies front[j] == fetches[j] by {}
        match latest_published(fetches) {
            Some(i) => {
                assert forall|j: int|
                    0 <= j < fetches.len() && is_published(
                        #[trigger] fetches[j],
                    ) implies fetches[j].generated_at <= fetches[i].generated_at by {
                    if j < front.len() {
                        assert(front[j] == fetches[j]);
                    }
                }
                assert forall|j: int|
                    i < j < fetches.len() && is_published(
                        #[trigger] fetches[j],
                    ) implies fetches[j].generated_at < fetches[i].generated_at by {
                    if j < front.len() {
                        assert(front[j] == fetches[j]);
                    }
                }
            },
            None => {
                assert forall|j: int| 0 <= j < fetches.len() implies !is_published(
                    #[trigger] fetches[j],
                ) by {
                    if j < front.len() {
                        assert(front[j] == fetches[j]);
                    }
                }
            },
        }
    }
}

/// The accepted bullets of a list, in order.
pub open spec fn accepted_only(bullets: Seq<BulletView>) -> Seq<BulletView>
    decreases bullets.len(),
{
    if bullets.len() == 0 {
        Seq::empty()
    } else if bullets.last().accepted == Some(true) {
        accepted_only(bullets.drop_last()).push(bullets.last())
    } else {
        accepted_only(bullets.drop_last())
    }
}

/// The published bullets: the accepted bullets of the most recent
/// published fetch, and none where nothing has been published.
pub open spec fn published_bullets(fetches: Seq<FetchView>) -> Seq<BulletView> {
    match latest_published(fetches) {
        Some(i) => accepted_only(fetches[i].summary->0.bullets),
        None => Seq::empty(),
    }
}

/// The moment after which unsent fetches count for carryover: when the most
/// recent published fetch was generated; `None` where nothing is published.
pub open spec fn carryover_cutoff(fetches: Seq<FetchView>) -> Option<i64> {
    match latest_published(fetches) {
        Some(i) => Some(fetches[i].generated_at),
        None => None,
    }
}

/// A fetch whose accepted bullets are carried over: it holds a summary, is
/// not sent, and was generated strictly after the cutoff, if there is one.
pub open spec fn is_carryover_source(fetch: FetchView, cutoff: Option<i64>) -> bool {
    &&& fetch.summary is Some
    &&& !fetch.sent
    &&& cutoff matches Some(at) ==> fetch.generated_at > at
}

/// `seen` followed by the accepted bullets of `bullets` whose text is new,
/// the last stored first.
pub open spec fn add_accepted(seen: Seq<BulletView>, bullets: Seq<BulletView>) -> Seq<BulletView>
    decreases bullets.len(),
{
    if bullets.len() == 0 {
        seen
    } else {
        let b = bullets.last();
        let next = if b.accepted == Some(true) && !has_text(seen, b.text) {
            seen.push(BulletView { text: b.text, accepted: Some(true) })
        } else {
            seen
        };
        add_accepted(next, bullets.drop_last())
    }
}

/// `seen` followed by the carryover bullets of `fetches`, the last stored
/// fetch first.
pub open spec fn collect_carryover(
    fetches: Seq<FetchView>,
    cutoff: Option<i64>,
    seen: Seq<BulletView>,
) -> Seq<BulletView>
    decreases fetches.len(),
{
    if fetches.len() == 0 {
        seen
    } else {
        let f = fetches.last();
        let next = if is_carryover_source(f, cutoff) {
            add_accepted(seen, f.summary->0.bullets)
        } else {
            seen
        };
        collect_carryover(fetches.drop_last(), cutoff, next)
    }
}

/// The carryover bullets: the accepted bullets of every unsent fetch that
/// was generated strictly after the most recent published one (of every
/// unsent fetch where nothing is published), each text once, newest first.
pub open spec fn carryover_bullets(fetches: Seq<FetchView>) -> Seq<BulletView> {
    collect_carryover(fetches, carryover_cutoff(fetches), Seq::empty())
}

/// Some accepted bullet of a carryover source among `fetches` has this text.
pub open spec fn is_carried_text(fetches: Seq<FetchView>, cutoff: Option<i64>, text: Seq<char>) -> bool {
    exists|j: int, k: int|
        0 <= j < fetches.len() && is_carryover_source(#[trigger] fetches[j], cutoff) && 0 <= k
            < fetches[j].summary->0.bullets.len() && (#[trigger] fetches[j].summary->0.bullets[k])
            == (BulletView { text, accepted: Some(true) })
}

/// What `add_accepted` yields: `seen` stays in front; what follows is
/// accepted, free of repeated texts, and holds exactly the new accepted texts.
pub proof fn lemma_add_accepted(seen: Seq<BulletView>, bullets: Seq<BulletView>)
    ensures
        add_accepted(seen, bullets).len() >= seen.len(),
        add_accepted(seen, bullets).take(seen.len() as int) == seen,
        no_duplicate_texts(seen) ==> no_duplicate_texts(add_accepted(seen, bullets)),
        forall|n: int|
            seen.len() <= n < add_accepted(seen, bullets).len() ==> {
                &&& (#[trigger] add_accepted(seen, bullets)[n]).accepted == Some(true)
                &&& exists|k: int|
                    0 <= k < bullets.len() && #[trigger] bullets[k] == add_accepted(
                        seen,
                        bullets,
                    )[n]
            },
        forall|k: int|
            0 <= k < bullets.len() && (#[trigger] bullets[k]).accepted == Some(true) ==> has_text(
                add_accepted(seen, bullets),
                bullets[k].text,
            ),
        forall|t: Seq<char>| has_text(seen, t) ==> has_text(add_accepted(seen, bullets), t),
    decreases bullets.len(),
{
    let out = add_accepted(seen, bullets);
    if bullets.len() == 0 {
        assert(seen.take(seen.len() as int) =~= seen);
    } else {
        let b = bullets.last();
        let front = bullets.drop_last();
        let next = if b.accepted == Some(true) && !has_text(seen, b.text) {
            seen.push(BulletView { text: b.text, accepted: Some(true) })
        } else {
            seen
        };
        lemma_add_accepted(next, front);
        assert(out == add_accepted(next, front));
        assert(out.take(seen.len() as int) =~= out.take(next.len() as int).take(seen.len() as int));
        assert(next.take(seen.len() as int) =~= seen);
        assert forall|t: Seq<char>| has_text(seen, t) implies has_text(next, t) by {
            let w = choose|w: int| 0 <= w < seen.len() && (#[trigger] seen[w]).text == t;
            assert(next[w].text == t);
        }
        if b.accepted == Some(true) {
            if !has_text(seen, b.text) {
                assert(next[next.len() - 1].text == b.text);
            }
            assert(has_text(next, b.text));
        }
        assert forall|n: int| seen.len() <= n < out.len() implies {
            &&& (#[trigger] out[n]).accepted == Some(true)
            &&& exists|k: int| 0 <= k < bullets.len() && #[trigger] bullets[k] == out[n]
        } by {
            if n < next.len() {
                assert(out.take(next.len() as int)[n] == next[n]);
                assert(out[n] == b);
                assert(bullets[bullets.len() - 1] == out[n]);
            } else {
                let k = choose|k: int| 0 <= k < front.len() && #[trigger] front[k] == out[n];
                assert(bullets[k] == out[n]);
            }
        }
        assert forall|k: int|
            0 <= k < bullets.len() && (#[trigger] bullets[k]).accepted == Some(true) implies has_text(
            out,
            bullets[k].text,
        ) by {
            if k < front.len() {
                assert(front[k] == bullets[k]);
            }
        }
    }
}

/// What `collect_carryover` yields: `seen` stays in front; what follows is
/// accepted, free of repeated texts, comes from carryover sources, and holds
/// the text of every accepted bullet of every carryover source.
pub proof fn lemma_collect_carryover(
    fetches: Seq<FetchView>,
    cutoff: Option<i64>,
    seen: Seq<BulletView>,
)
    ensures
        collect_carryover(fetches, cutoff, seen).len() >= seen.len(),
        collect_carryover(fetches, cutoff, seen).take(seen.len() as int) == seen,
        no_duplicate_texts(seen) ==> no_duplicate_texts(collect_carryover(fetches, cutoff, seen)),
        forall|n: int|
            seen.len() <= n < collect_carryover(fetches, cutoff, seen).len() ==> {
                &&& (#[trigger] collect_carryover(fetches, cutoff, seen)[n]).accepted == Some(true)
                &&& is_carried_text(
                    fetches,
                    cutoff,
                    collect_carryover(fetches, cutoff, seen)[n].text,
                )
            },
        forall|t: Seq<char>|
            is_carried_text(fetches, cutoff, t) ==> has_text(
                collect_carryover(fetches, cutoff, seen),
                t,
            ),
        forall|t: Seq<char>|
            has_text(seen, t) ==> has_text(collect_carryover(fetches, cutoff, seen), t),
    decreases fetches.len(),
{
    let out = collect_carryover(fetches, cutoff, seen);
    if fetches.len() == 0 {
        assert(seen.take(seen.len() as int) =~= seen);
    } else {
        let f = fetches.last();
        let last = fetches.len() - 1;
        let front = fetches.drop_last();
        let next = if is_carryover_source(f, cutoff) {
            add_accepted(seen, f.summary->0.bullets)
        } else {
            seen
        };
        if is_carryover_source(f, cutoff) {
            lemma_add_accepted(seen, f.summary->0.bullets);
        } else {
            assert(seen.take(seen.len() as int) =~= seen);
        }
        lemma_collect_carryover(front, cutoff, next);
        assert(out == collect_carryover(front, cutoff, next));
        assert(out.take(seen.len() as int) =~= out.take(next.len() as int).take(seen.len() as int));
        assert forall|n: int| seen.len() <= n < out.len() implies {
            &&& (#[trigger] out[n]).accepted == Some(true)
            &&& is_carried_text(fetches, cutoff, out[n].text)
        } by {
            if n < next.len() {
                assert(out.take(next.len() as int)[n] == next[n]);
                let bullets = f.summary->0.bullets;
                let k = choose|k: int| 0 <= k < bullets.len() && #[trigger] bullets[k] == next[n];
                assert(is_carryover_source(fetches[last], cutoff));
                assert(fetches[last].summary->0.bullets[k] == (BulletView {
                    text: out[n].text,
                    accepted: Some(true),
                }));
            } else {
                assert(is_carried_text(front, cutoff, out[n].text));
                let (j, k) = choose|j: int, k: int|
                    0 <= j < front.len() && is_carryover_source(#[trigger] front[j], cutoff) && 0
                        <= k < front[j].summary->0.bullets.len() && (
                    #[trigger] front[j].summary->0.bullets[k]) == (BulletView {
                        text: out[n].text,
                        accepted: Some(true),
                    });
                assert(fetches[j] == front[j]);
                assert(is_carryover_source(fetches[j], cutoff));
                assert(fetches[j].summary->0.bullets[k] == (BulletView {
                    text: out[n].text,
                    accepted: Some(true),
                }));
            }
        }
        assert forall|t: Seq<char>| is_carried_text(fetches, cutoff, t) implies has_text(
            out,
            t,
        ) by {
            let (j, k) = choose|j: int, k: int|
                0 <= j < fetches.len() && is_carryover_source(#[trigger] fetches[j], cutoff) && 0
                    <= k < fetches[j].summary->0.bullets.len() && (
                #[trigger] fetches[j].summary->0.bullets[k]) == (BulletView {
                    text: t,
                    accepted: Some(true),
                });
            if j == last {
                assert(f.summary->0.bullets[k].accepted == Some(true));
                assert(has_text(next, f.summary->0.bullets[k].text));
            } else {
                assert(front[j] == fetches[j]);
                assert(is_carryover_source(front[j], cutoff));
                assert(front[j].summary->0.bullets[k] == (BulletView {
                    text: t,
                    accepted: Some(true),
                }));
                assert(is_carried_text(front, cutoff, t));
            }
        }
    }
}

/// The carryover bullets are exactly the accepted texts of the unsent
/// fetches generated after the most recent published one, each once, each
/// marked accepted.
pub proof fn lemma_carryover_bullets(fetches: Seq<FetchView>)
    ensures
        no_duplicate_texts(carryover_bullets(fetches)),
        forall|n: int|
            0 <= n < carryover_bullets(fetches).len() ==> {
                &&& (#[trigger] carryover_bullets(fetches)[n]).accepted == Some(true)
                &&& is_carried_text(
                    fetches,
                    carryover_cutoff(fetches),
                    carryover_bullets(fetches)[n].text,
                )
            },
        forall|t: Seq<char>|
            is_carried_text(fetches, carryover_cutoff(fetches), t) ==> has_text(
                carryover_bullets(fetches),
                t,
            ),
{
    lemma_collect_carryover(fetches, carryover_cutoff(fetches), Seq::empty());
}


/// Position of the most recent published fetch.
pub fn latest_published_index(records: &Vec<FetchRecord>) -> (found: Option<usize>)
    ensures
        match found {
            Some(i) => latest_published(fetch_views(records@)) == Some(i as int) && i
                < records.len(),
            None => latest_published(fetch_views(records@)) is None,
        },
{
    let mut best: Option<usize> = None;
    let mut k: usize = 0;
    assert(fetch_views(records@).take(0) =~= Seq::<FetchView>::empty());
    while k < records.len()
        invariant
            k <= records.len(),
            match best {
                Some(i) => latest_published(fetch_views(records@).take(k as int)) == Some(
                    i as int,
                ) && i < k,
                None => latest_published(fetch_views(records@).take(k as int)) is None,
            },
        decreases records.len() - k,
    {
        proof {
            let upto = fetch_views(records@).take(k + 1);
            assert(upto.drop_last() =~= fetch_views(records@).take(k as int));
            assert(upto.last() == records@[k as int]@);
            match best {
                Some(i) => {
                    assert(upto[i as int] == records@[i as int]@);
                },
                None => {},
            }
        }
        let record: &FetchRecord = &records[k];
        if record.sent && record.summary.is_some() {
            let newer: bool = match best {
                Some(i) => records[i].generated_at <= record.generated_at,
                None => true,
            };
            if newer {
                best = Some(k);
            }
        }
        k = k + 1;
    }
    assert(fetch_views(records@).take(k as int) =~= fetch_views(records@));
    best
}

/// Copies the accepted bullets of a list, in order.
pub fn accepted_bullets(bullets: &Vec<Bullet>) -> (out: Vec<Bullet>)
    ensures
        bullet_views(out@) == accepted_only(bullet_views(bullets@)),
{
    let mut out: Vec<Bullet> = Vec::new();
    let mut k: usize = 0;
    assert(bullet_views(bullets@).take(0) =~= Seq::<BulletView>::empty());
    assert(bullet_views(out@) =~= Seq::<BulletView>::empty());
    while k < bullets.len()
        invariant
            k <= bullets.len(),
            bullet_views(out@) == accepted_only(bullet_views(bullets@).take(k as int)),
        decreases bullets.len() - k,
    {
        let ghost before = bullet_views(out@);
        proof {
            let upto = bullet_views(bullets@).take(k + 1);
            assert(upto.drop_last() =~= bullet_views(bullets@).take(k as int));
            assert(upto.last() == bullets@[k as int]@);
        }
        let accepted: bool = match bullets[k].accepted {
            Some(a) => a,
            None => false,
        };
        if accepted {
            out.push(bullets[k].duplicate());
            assert(bullet_views(out@) =~= before.push(bullets@[k as int]@));
        }
        k = k + 1;
    }
    assert(bullet_views(bullets@).take(k as int) =~= bullet_views(bullets@));
    out
}

/// The published bullets among the given fetches.
pub fn published_bullets_of(records: &Vec<FetchRecord>) -> (out: Vec<Bullet>)
    ensures
        bullet_views(out@) == published_bullets(fetch_views(records@)),
        forall|n: int| 0 <= n < out@.len() ==> (#[trigger] out@[n]).accepted == Some(true),
{
    let out: Vec<Bullet> = match latest_published_index(records) {
        Some(i) => {
            proof {
                lemma_latest_published(fetch_views(records@));
            }
            match &records[i].summary {
                Some(summary) => accepted_bullets(&summary.bullets),
                None => Vec::new(),
            }
        },
        None => Vec::new(),
    };
    proof {
        assert(bullet_views(out@) =~= published_bullets(fetch_views(records@)));
        lemma_accepted_only(published_source(fetch_views(records@)));
        assert forall|n: int| 0 <= n < out@.len() implies (#[trigger] out@[n]).accepted == Some(
            true,
        ) by {
            assert(bullet_views(out@)[n] == out@[n]@);
        }
    }
    out
}

/// The bullets of the most recent published fetch, accepted or not; none
/// where nothing is published.
pub open spec fn published_source(fetches: Seq<FetchView>) -> Seq<BulletView> {
    match latest_published(fetches) {
        Some(i) => fetches[i].summary->0.bullets,
        None => Seq::empty(),
    }
}

/// `accepted_only` keeps exactly the accepted bullets: each one it yields is
/// accepted and comes from the list, and every accepted text of the list is
/// among them.
pub proof fn lemma_accepted_only(bullets: Seq<BulletView>)
    ensures
        accepted_only(bullets).len() <= bullets.len(),
        forall|n: int|
            0 <= n < accepted_only(bullets).len() ==> {
                &&& (#[trigger] accepted_only(bullets)[n]).accepted == Some(true)
                &&& exists|k: int| 0 <= k < bullets.len() && #[trigger] bullets[k] == accepted_only(bullets)[n]
            },
        forall|k: int|
            0 <= k < bullets.len() && (#[trigger] bullets[k]).accepted == Some(true) ==> has_text(
                accepted_only(bullets),
                bullets[k].text,
            ),
    decreases bullets.len(),
{
    if bullets.len() > 0 {
        let front = bullets.drop_last();
        let out = accepted_only(bullets);
        lemma_accepted_only(front);
        assert forall|n: int| 0 <= n < out.len() implies {
            &&& (#[trigger] out[n]).accepted == Some(true)
            &&& exists|k: int| 0 <= k < bullets.len() && #[trigger] bullets[k] == out[n]
        } by {
            if n < accepted_only(front).len() {
                let k = choose|k: int|
                    0 <= k < front.len() && #[trigger] front[k] == accepted_only(front)[n];
                assert(bullets[k] == out[n]);
            } else {
                assert(bullets[bullets.len() - 1] == out[n]);
            }
        }
        assert forall|k: int|
            0 <= k < bullets.len() && (#[trigger] bullets[k]).accepted == Some(true) implies has_text(
            out,
            bullets[k].text,
        ) by {
            if k < front.len() {
                assert(front[k] == bullets[k]);
                let w = choose|w: int|
                    0 <= w < accepted_only(front).len() && (#[trigger] accepted_only(
                        front,
                    )[w]).text == bullets[k].text;
                assert(out[w].text == bullets[k].text);
            } else {
                assert(out[out.len() - 1].text == bullets[k].text);
            }
        }
    }
}

/// Appends to `out` the accepted bullets of `bullets` whose text is new,
/// the last stored first.
fn push_accepted(out: &mut Vec<Bullet>, bullets: &Vec<Bullet>)
    ensures
        bullet_views(final(out)@) == add_accepted(bullet_views(old(out)@), bullet_views(bullets@)),
{
    let mut k: usize = bullets.len();
    assert(bullet_views(bullets@).take(k as int) =~= bullet_views(bullets@));
    while k > 0
        invariant
            k <= bullets.len(),
            add_accepted(bullet_views(old(out)@), bullet_views(bullets@)) == add_accepted(
                bullet_views(out@),
                bullet_views(bullets@).take(k as int),
            ),
        decreases k,
    {
        let ghost before = bullet_views(out@);
        proof {
            let upto = bullet_views(bullets@).take(k as int);
            assert(upto.drop_last() =~= bullet_views(bullets@).take(k - 1));
            assert(upto.last() == bullets@[k - 1]@);
        }
        k = k - 1;
        let accepted: bool = match bullets[k].accepted {
            Some(a) => a,
            None => false,
        };
        if accepted && !contains_text(out, &bullets[k].text) {
            out.push(bullets[k].decided(true));
            assert(bullet_views(out@) =~= before.push(
                BulletView { text: bullets@[k as int]@.text, accepted: Some(true) },
            ));
        }
    }
}

/// The carryover bullets among the given fetches.
pub fn carryover_bullets_of(records: &Vec<FetchRecord>) -> (out: Vec<Bullet>)
    ensures
        bullet_views(out@) == carryover_bullets(fetch_views(records@)),
        no_duplicate_texts(bullet_views(out@)),
        forall|n: int| 0 <= n < out@.len() ==> (#[trigger] out@[n]).accepted == Some(true),
{
    let cutoff: Option<i64> = match latest_published_index(records) {
        Some(i) => Some(records[i].generated_at),
        None => None,
    };
    let mut out: Vec<Bullet> = Vec::new();
    let mut k: usize = records.len();
    assert(fetch_views(records@).take(k as int) =~= fetch_views(records@));
    assert(bullet_views(out@) =~= Seq::<BulletView>::empty());
    while k > 0
        invariant
            k <= records.len(),
            cutoff == carryover_cutoff(fetch_views(records@)),
            carryover_bullets(fetch_views(records@)) == collect_carryover(
                fetch_views(records@).take(k as int),
                cutoff,
                bullet_views(out@),
            ),
        decreases k,
    {
        proof {
            let upto = fetch_views(records@).take(k as int);
            assert(upto.drop_last() =~= fetch_views(records@).take(k - 1));
            assert(upto.last() == records@[k - 1]@);
        }
        k = k - 1;
        let record: &FetchRecord = &records[k];
        let after_cutoff: bool = match cutoff {
            Some(at) => record.generated_at > at,
            None => true,
        };
        if !record.sent && after_cutoff {
            match &record.summary {
                Some(summary) => {
                    push_accepted(&mut out, &summary.bullets);
                },
                None => {},
            }
        }
    }
    proof {
        lemma_carryover_bullets(fetch_views(records@));
        assert forall|n: int| 0 <= n < out@.len() implies (#[trigger] out@[n]).accepted == Some(
            true,
        ) by {
            assert(bullet_views(out@)[n] == out@[n]@);
        }
    }
    out
}


/// Why the store refused a change.
#[derive(Debug, Clone, Copy, PartialEq, Eq)]
pub enum StoreError {
    /// No fetch has the given id.
    UnknownFetch,
    /// The fetch already holds a summary.
    SummaryExists,
}

/// Position of the fetch with the given id, if there is one.
pub open spec fn position_of(fetches: Seq<FetchView>, id: i64) -> Option<int>
    decreases fetches.len(),
{
    if fetches.len() == 0 {
        None
    } else {
        match position_of(fetches.drop_last(), id) {
            Some(i) => Some(i),
            None => if fetches.last().id == id {
                Some(fetches.len() - 1)
            } else {
                None
            },
        }
    }
}

/// What `position_of` finds: the first fetch with the id; `None` only where
/// no fetch has it.
pub proof fn lemma_position_of(fetches: Seq<FetchView>, id: i64)
    ensures
        match position_of(fetches, id) {
            Some(i) => 0 <= i < fetches.len() && fetches[i].id == id && forall|j: int|
                0 <= j < i ==> (#[trigger] fetches[j]).id != id,
            None => forall|j: int| 0 <= j < fetches.len() ==> (#[trigger] fetches[j]).id != id,
        },
    decreases fetches.len(),
{
    if fetches.len() > 0 {
        let front = fetches.drop_last();
        lemma_position_of(front, id);
        assert forall|j: int| 0 <= j < front.len() implies front[j] == fetches[j] by {}
        match position_of(fetches, id) {
            Some(i) => {
                assert forall|j: int| 0 <= j < i implies (#[trigger] fetches[j]).id != id by {
                    assert(front[j] == fetches[j]);
                }
            },
            None => {
                assert forall|j: int| 0 <= j < fetches.len() implies (#[trigger] fetches[j]).id
                    != id by {
                    if j < front.len() {
                        assert(front[j] == fetches[j]);
                    }
                }
            },
        }
    }
}

/// The store is in order: fetch ids are positive and grow from one fetch
/// to the next, and a fetch that is marked sent holds a summary.
pub open spec fn store_is_well_formed(fetches: Seq<FetchView>) -> bool {
    &&& forall|i: int| 0 <= i < fetches.len() ==> (#[trigger] fetches[i]).id >= 1
    &&& forall|i: int, j: int|
        0 <= i < j < fetches.len() ==> (#[trigger] fetches[i]).id < (#[trigger] fetches[j]).id
    &&& forall|i: int|
        0 <= i < fetches.len() && (#[trigger] fetches[i]).sent ==> fetches[i].summary is Some
}

/// The id that the next fetch gets.
pub open spec fn next_fetch_id(fetches: Seq<FetchView>) -> int {
    if fetches.len() == 0 {
        1
    } else {
        fetches.last().id + 1
    }
}

/// The store after a fetch was created at moment `now`: one more fetch, not
/// sent, without a summary.
pub open spec fn with_new_fetch(fetches: Seq<FetchView>, now: i64) -> Seq<FetchView> {
    fetches.push(
        FetchView {
            id: next_fetch_id(fetches) as i64,
            generated_at: now,
            sent: false,
            summary: None,
        },
    )
}

/// A summary as the store holds it.
pub open spec fn stored_form(summary: SummaryView) -> StoredSummaryView {
    StoredSummaryView { mood: summary.mood, bullets: summary.items }
}

/// The store after the summary was stored with the fetch at position `i`.
pub open spec fn with_summary(fetches: Seq<FetchView>, i: int, summary: SummaryView) -> Seq<
    FetchView,
> {
    fetches.update(
        i,
        FetchView {
            id: fetches[i].id,
            generated_at: fetches[i].generated_at,
            sent: fetches[i].sent,
            summary: Some(stored_form(summary)),
        },
    )
}

/// The store after the fetch with the given id was marked sent. Only a
/// fetch that holds a summary can be marked; otherwise nothing changes.
pub open spec fn marked_sent(fetches: Seq<FetchView>, id: i64) -> Seq<FetchView> {
    match position_of(fetches, id) {
        Some(i) => if fetches[i].summary is Some {
            fetches.update(
                i,
                FetchView {
                    id: fetches[i].id,
                    generated_at: fetches[i].generated_at,
                    sent: true,
                    summary: fetches[i].summary,
                },
            )
        } else {
            fetches
        },
        None => fetches,
    }
}

/// The store of fetches and their summaries, oldest fetch first.
#[derive(Debug, Clone)]
pub struct BulletStore {
    fetches: Vec<FetchRecord>,
}

impl View for BulletStore {
    type V = Seq<FetchView>;

    closed spec fn view(&self) -> Seq<FetchView> {
        fetch_views(self.fetches@)
    }
}

/// Whether the records are in order as a store needs them.
pub fn records_are_well_formed(records: &Vec<FetchRecord>) -> (ok: bool)
    ensures
        ok == store_is_well_formed(fetch_views(records@)),
{
    let mut k: usize = 0;
    while k < records.len()
        invariant
            k <= records.len(),
            store_is_well_formed(fetch_views(records@).take(k as int)),
        decreases records.len() - k,
    {
        let record: &FetchRecord = &records[k];
        let ghost all = fetch_views(records@);
        if record.id < 1 || (record.sent && record.summary.is_none()) {
            assert(all[k as int] == records@[k as int]@);
            return false;
        }
        if k > 0 && records[k - 1].id >= record.id {
            assert(all[k - 1] == records@[k - 1]@);
            assert(all[k as int] == records@[k as int]@);
            return false;
        }
        proof {
            let upto = all.take(k + 1);
            let before = all.take(k as int);
            assert forall|i: int, j: int| 0 <= i < j < upto.len() implies (#[trigger] upto[i]).id < (
            #[trigger] upto[j]).id by {
                if j < k {
                    assert(before[i] == upto[i] && before[j] == upto[j]);
                } else if i < k - 1 {
                    assert(before[i] == upto[i] && before[k - 1] == upto[k - 1]);
                    assert(before[i].id < before[k - 1].id);
                }
            }
            assert forall|i: int| 0 <= i < upto.len() implies (#[trigger] upto[i]).id >= 1 && (
            upto[i].sent ==> upto[i].summary is Some) by {
                if i < k {
                    assert(before[i] == upto[i]);
                }
            }
        }
        k = k + 1;
    }
    assert(fetch_views(records@).take(k as int) =~= fetch_views(records@));
    true
}

impl BulletStore {
    /// The store is in order.
    pub open spec fn is_well_formed(&self) -> bool {
        store_is_well_formed(self@)
    }

    /// A store without any fetch.
    pub fn new() -> (store: BulletStore)
        ensures
            store@ == Seq::<FetchView>::empty(),
            store.is_well_formed(),
    {
        let store = BulletStore { fetches: Vec::new() };
        assert(store@ =~= Seq::<FetchView>::empty());
        store
    }

    /// A store that holds the given records, where they are in order.
    pub fn from_records(records: Vec<FetchRecord>) -> (store: Option<BulletStore>)
        ensures
            match store {
                Some(s) => s@ == fetch_views(records@) && s.is_well_formed(),
                None => !store_is_well_formed(fetch_views(records@)),
            },
    {
        if records_are_well_formed(&records) {
            Some(BulletStore { fetches: records })
        } else {
            None
        }
    }

    /// The records of the store, oldest fetch first.
    pub fn records(&self) -> (records: &Vec<FetchRecord>)
        ensures
            fetch_views(records@) == self@,
    {
        &self.fetches
    }

    /// Position of the fetch with the given id.
    fn find(&self, fetch_id: i64) -> (found: Option<usize>)
        ensures
            match found {
                Some(i) => position_of(self@, fetch_id) == Some(i as int) && i
                    < self.fetches.len(),
                None => position_of(self@, fetch_id) is None,
            },
    {
        let mut k: usize = 0;
        assert(self@.take(0) =~= Seq::<FetchView>::empty());
        while k < self.fetches.len()
            invariant
                k <= self.fetches.len(),
                position_of(self@.take(k as int), fetch_id) is None,
            decreases self.fetches.len() - k,
        {
            proof {
                let upto = self@.take(k + 1);
                assert(upto.drop_last() =~= self@.take(k as int));
                assert(upto.last() == self.fetches@[k as int]@);
                lemma_position_of(upto, fetch_id);
                lemma_position_of(self@, fetch_id);
            }
            if self.fetches[k].id == fetch_id {
                assert(self@[k as int] == self.fetches@[k as int]@);
                assert(position_of(self@.take(k + 1), fetch_id) == Some(k as int));
                assert forall|j: int| 0 <= j < k implies (#[trigger] self@[j]).id != fetch_id by {
                    assert(self@.take(k + 1)[j] == self@[j]);
                }
                return Some(k);
            }
            k = k + 1;
        }
        assert(self@.take(k as int) =~= self@);
        None
    }

    /// Allocates a new unsent fetch, generated at moment `now`, and returns
    /// its id. `None` is returned, and nothing changes, exactly where the
    /// ids are used up.
    pub fn create_fetch(&mut self, now: i64) -> (fetch_id: Option<i64>)
        requires
            old(self).is_well_formed(),
        ensures
            final(self).is_well_formed(),
            match fetch_id {
                Some(id) => {
                    &&& id as int == next_fetch_id(old(self)@)
                    &&& final(self)@ == with_new_fetch(old(self)@, now)
                },
                None => next_fetch_id(old(self)@) > i64::MAX && final(self)@ == old(self)@,
            },
    {
        let n: usize = self.fetches.len();
        let id: i64 = if n == 0 {
            1
        } else {
            assert(self@[n - 1] == self.fetches@[n - 1]@);
            let last: i64 = self.fetches[n - 1].id;
            if last == i64::MAX {
                return None;
            }
            last + 1
        };
        let ghost before = self@;
        self.fetches.push(FetchRecord { id, generated_at: now, sent: false, summary: None });
        proof {
            assert(self@ =~= with_new_fetch(before, now));
            assert forall|i: int, j: int| 0 <= i < j < self@.len() implies (#[trigger] self@[i]).id
                < (#[trigger] self@[j]).id by {
                if j < n {
                    assert(before[i] == self@[i] && before[j] == self@[j]);
                } else if i < n - 1 {
                    assert(before[i] == self@[i]);
                    assert(before[i].id < before[n - 1].id);
                } else {
                    assert(before[i] == self@[i]);
                }
            }
            assert forall|i: int| 0 <= i < self@.len() implies (#[trigger] self@[i]).id >= 1 && (
            self@[i].sent ==> self@[i].summary is Some) by {
                if i < n {
                    assert(before[i] == self@[i]);
                }
            }
        }
        Some(id)
    }

    /// Stores the mood and every bullet of the summary, each with its
    /// decision, with the given fetch. All of it is stored or none: on an
    /// error the store is as it was. The errors are a fetch id that the store
    /// does not know, and a fetch that already holds a summary.
    pub fn insert_summary(&mut self, fetch_id: i64, summary: &Summary) -> (done: Result<
        (),
        StoreError,
    >)
        requires
            old(self).is_well_formed(),
        ensures
            final(self).is_well_formed(),
            match done {
                Ok(()) => {
                    &&& position_of(old(self)@, fetch_id) matches Some(i)
                    &&& old(self)@[i].summary is None
                    &&& final(self)@ == with_summary(old(self)@, i, summary@)
                },
                Err(StoreError::UnknownFetch) => {
                    &&& position_of(old(self)@, fetch_id) is None
                    &&& final(self)@ == old(self)@
                },
                Err(StoreError::SummaryExists) => {
                    &&& position_of(old(self)@, fetch_id) matches Some(i)
                    &&& old(self)@[i].summary is Some
                    &&& final(self)@ == old(self)@
                },
            },
    {
        let i: usize = match self.find(fetch_id) {
            Some(i) => i,
            None => {
                return Err(StoreError::UnknownFetch);
            },
        };
        assert(self@[i as int] == self.fetches@[i as int]@);
        if self.fetches[i].summary.is_some() {
            return Err(StoreError::SummaryExists);
        }
        let stored = StoredSummary {
            mood: summary.mood.clone(),
            bullets: duplicate_bullets(&summary.items),
        };
        let ghost before = self@;
        let old_record: FetchRecord = self.fetches.remove(i);
        let record = FetchRecord {
            id: old_record.id,
            generated_at: old_record.generated_at,
            sent: old_record.sent,
            summary: Some(stored),
        };
        self.fetches.insert(i, record);
        proof {
            assert(self@ =~= with_summary(before, i as int, summary@));
            lemma_update_keeps_order(before, i as int, self@[i as int]);
        }
        Ok(())
    }

    /// The bullets that were last published: the accepted bullets of the
    /// most recent fetch that is marked sent; none where no fetch is.
    pub fn fetch_latest_published_bullets(&self) -> (out: Vec<Bullet>)
        ensures
            bullet_views(out@) == published_bullets(self@),
            forall|n: int| 0 <= n < out@.len() ==> (#[trigger] out@[n]).accepted == Some(true),
    {
        published_bullets_of(&self.fetches)
    }

    /// The accepted bullets that wait for publication: those of every unsent
    /// fetch generated after the most recent published one, each text once.
    pub fn fetch_unpublished_accepted_bullets_since_last_published(&self) -> (out: Vec<Bullet>)
        ensures
            bullet_views(out@) == carryover_bullets(self@),
            no_duplicate_texts(bullet_views(out@)),
            forall|n: int| 0 <= n < out@.len() ==> (#[trigger] out@[n]).accepted == Some(true),
    {
        carryover_bullets_of(&self.fetches)
    }

    /// Marks the fetch as sent. A fetch that is already marked stays
    /// marked; a fetch without a summary, or an id that the store does not
    /// know, changes nothing.
    pub fn mark_summary_sent(&mut self, fetch_id: i64)
        requires
            old(self).is_well_formed(),
        ensures
            final(self).is_well_formed(),
            final(self)@ == marked_sent(old(self)@, fetch_id),
    {
        let i: usize = match self.find(fetch_id) {
            Some(i) => i,
            None => {
                return ;
            },
        };
        assert(self@[i as int] == self.fetches@[i as int]@);
        if self.fetches[i].summary.is_none() {
            return ;
        }
        let ghost before = self@;
        let old_record: FetchRecord = self.fetches.remove(i);
        let record = FetchRecord {
            id: old_record.id,
            generated_at: old_record.generated_at,
            sent: true,
            summary: old_record.summary,
        };
        self.fetches.insert(i, record);
        proof {
            assert(self@ =~= marked_sent(before, fetch_id));
            lemma_update_keeps_order(before, i as int, self@[i as int]);
        }
    }
}

/// Replacing a fetch by one with the same id, which holds a summary if it
/// is marked sent, leaves the store in order.
pub proof fn lemma_update_keeps_order(fetches: Seq<FetchView>, i: int, replacement: FetchView)
    requires
        store_is_well_formed(fetches),
        0 <= i < fetches.len(),
        replacement.id == fetches[i].id,
        replacement.sent ==> replacement.summary is Some,
    ensures
        store_is_well_formed(fetches.update(i, replacement)),
{
    let after = fetches.update(i, replacement);
    assert forall|a: int, b: int| 0 <= a < b < after.len() implies (#[trigger] after[a]).id < (
    #[trigger] after[b]).id by {
        assert(fetches[a].id < fetches[b].id);
    }
    assert forall|a: int| 0 <= a < after.len() implies (#[trigger] after[a]).id >= 1 && (
    after[a].sent ==> after[a].summary is Some) by {
        assert(fetches[a].id >= 1);
    }
}


/// Every bullet of every published fetch carries a decision.
pub open spec fn published_are_decided(fetches: Seq<FetchView>) -> bool {
    forall|i: int, k: int|
        0 <= i < fetches.len() && is_published(#[trigger] fetches[i]) && 0 <= k
            < fetches[i].summary->0.bullets.len() ==> (
        #[trigger] fetches[i].summary->0.bullets[k]).accepted is Some
}

/// A fetch that is not published is absent from the published bullets:
/// whatever it holds, and whatever it is replaced by short of being
/// published, the published bullets are the same.
pub proof fn lemma_unpublished_fetch_is_absent(
    fetches: Seq<FetchView>,
    i: int,
    replacement: FetchView,
)
    requires
        0 <= i < fetches.len(),
        !is_published(fetches[i]),
        !is_published(replacement),
    ensures
        latest_published(fetches.update(i, replacement)) == latest_published(fetches),
        published_bullets(fetches.update(i, replacement)) == published_bullets(fetches),
    decreases fetches.len(),
{
    let after = fetches.update(i, replacement);
    let last = fetches.len() - 1;
    lemma_latest_published(fetches.drop_last());
    if i == last {
        assert(after.drop_last() =~= fetches.drop_last());
    } else {
        assert(after.drop_last() =~= fetches.drop_last().update(i, replacement));
        lemma_unpublished_fetch_is_absent(fetches.drop_last(), i, replacement);
        assert(after.last() == fetches.last());
        match latest_published(fetches.drop_last()) {
            Some(e) => {
                assert(fetches.drop_last()[e] == fetches[e]);
                assert(after[e] == fetches[e]);
            },
            None => {},
        }
    }
    lemma_latest_published(fetches);
    match latest_published(fetches) {
        Some(p) => {
            assert(after[p] == fetches[p]);
        },
        None => {},
    }
}

/// A fetch that was only just created is absent from the published bullets.
pub proof fn lemma_new_fetch_is_absent(fetches: Seq<FetchView>, now: i64)
    ensures
        published_bullets(with_new_fetch(fetches, now)) == published_bullets(fetches),
{
    let after = with_new_fetch(fetches, now);
    assert(after.drop_last() =~= fetches);
    lemma_latest_published(fetches);
    match latest_published(fetches) {
        Some(p) => {
            assert(after[p] == fetches[p]);
        },
        None => {},
    }
}

/// Storing a summary with an unsent fetch publishes nothing: until the
/// fetch is marked sent the published bullets stay what they were.
pub proof fn lemma_stored_summary_is_not_published(
    fetches: Seq<FetchView>,
    i: int,
    summary: SummaryView,
)
    requires
        0 <= i < fetches.len(),
        !fetches[i].sent,
    ensures
        published_bullets(with_summary(fetches, i, summary)) == published_bullets(fetches),
{
    lemma_unpublished_fetch_is_absent(fetches, i, with_summary(fetches, i, summary)[i]);
}

/// Marking a fetch sent publishes its summary whole: the fetch then counts
/// as published with every bullet and decision that was stored with it, and
/// where no published fetch is younger, its accepted bullets are the
/// published bullets. No other fetch changes.
pub proof fn lemma_mark_sent_publishes_whole_summary(fetches: Seq<FetchView>, id: i64)
    requires
        store_is_well_formed(fetches),
        position_of(fetches, id) matches Some(i) && fetches[i].summary is Some,
    ensures
        marked_sent(fetches, id).len() == fetches.len(),
        is_published(marked_sent(fetches, id)[position_of(fetches, id)->0]),
        marked_sent(fetches, id)[position_of(fetches, id)->0].summary == fetches[position_of(
            fetches,
            id,
        )->0].summary,
        forall|j: int|
            0 <= j < fetches.len() && j != position_of(fetches, id)->0 ==> #[trigger] marked_sent(
                fetches,
                id,
            )[j] == fetches[j],
        (forall|j: int|
            0 <= j < fetches.len() && is_published(#[trigger] fetches[j]) && j != position_of(
                fetches,
                id,
            )->0 ==> {
                ||| fetches[j].generated_at < fetches[position_of(fetches, id)->0].generated_at
                ||| (fetches[j].generated_at == fetches[position_of(fetches, id)->0].generated_at
                    && j < position_of(fetches, id)->0)
            }) ==> published_bullets(marked_sent(fetches, id)) == accepted_only(
            fetches[position_of(fetches, id)->0].summary->0.bullets,
        ),
{
    lemma_position_of(fetches, id);
    let i = position_of(fetches, id)->0;
    let after = marked_sent(fetches, id);
    if forall|j: int|
        0 <= j < fetches.len() && is_published(#[trigger] fetches[j]) && j != i ==> {
            ||| fetches[j].generated_at < fetches[i].generated_at
            ||| (fetches[j].generated_at == fetches[i].generated_at && j < i)
        } {
        lemma_latest_published(after);
        assert(is_published(after[i]));
        let p = latest_published(after)->0;
        if p != i {
            assert(after[p] == fetches[p]);
            assert(is_published(fetches[p]));
        }
    }
}

/// Marking a fetch sent a second time changes nothing.
pub proof fn lemma_mark_sent_is_idempotent(fetches: Seq<FetchView>, id: i64)
    ensures
        marked_sent(marked_sent(fetches, id), id) == marked_sent(fetches, id),
{
    lemma_position_of(fetches, id);
    let once = marked_sent(fetches, id);
    match position_of(fetches, id) {
        Some(i) => {
            if fetches[i].summary is Some {
                lemma_position_of(once, id);
                assert forall|j: int| 0 <= j < i implies (#[trigger] once[j]).id != id by {
                    assert(once[j] == fetches[j]);
                }
                assert(once[i].id == id);
                assert(position_of(once, id) == Some(i));
                assert(marked_sent(once, id) =~= once);
            }
        },
        None => {},
    }
}

/// Publication is all or nothing. A run stores the summary of its fetch
/// with the classifier's decisions and then marks the fetch sent. At every
/// point of such a run, the fetch is either absent from the published
/// bullets (before it is marked, the published bullets are what they were
/// before the run), or it is published with all its bullets stored, each
/// with a decision. In a store where every published bullet carried a
/// decision before the run, every published bullet carries one after it.
pub proof fn lemma_publication_is_atomic(
    fetches: Seq<FetchView>,
    id: i64,
    summary: SummaryView,
    results: Seq<bool>,
)
    requires
        store_is_well_formed(fetches),
        published_are_decided(fetches),
        position_of(fetches, id) matches Some(i) && fetches[i].summary is None,
        results.len() == summary.items.len(),
    ensures
        ({
            let i = position_of(fetches, id)->0;
            let judged = SummaryView {
                mood: summary.mood,
                items: decided(summary.items, results),
                date: summary.date,
            };
            let stored = with_summary(fetches, i, judged);
            let sent = marked_sent(stored, id);
            &&& published_bullets(stored) == published_bullets(fetches)
            &&& published_are_decided(stored)
            &&& store_is_well_formed(stored)
            &&& is_published(sent[i])
            &&& sent[i].summary == Some(stored_form(judged))
            &&& published_are_decided(sent)
            &&& store_is_well_formed(sent)
            &&& marked_sent(fetches, id) == fetches
        }),
{
    lemma_position_of(fetches, id);
    let i = position_of(fetches, id)->0;
    let judged = SummaryView {
        mood: summary.mood,
        items: decided(summary.items, results),
        date: summary.date,
    };
    let stored = with_summary(fetches, i, judged);
    lemma_stored_summary_is_not_published(fetches, i, judged);
    lemma_update_keeps_order(fetches, i, stored[i]);
    assert forall|a: int, k: int|
        0 <= a < stored.len() && is_published(#[trigger] stored[a]) && 0 <= k
            < stored[a].summary->0.bullets.len() implies (
    #[trigger] stored[a].summary->0.bullets[k]).accepted is Some by {
        assert(a != i);
        assert(stored[a] == fetches[a]);
    }
    lemma_position_of(stored, id);
    assert forall|j: int| 0 <= j < i implies (#[trigger] stored[j]).id != id by {
        assert(stored[j] == fetches[j]);
    }
    assert(stored[i].id == id);
    assert(position_of(stored, id) == Some(i));
    let sent = marked_sent(stored, id);
    lemma_update_keeps_order(stored, i, sent[i]);
    assert forall|a: int, k: int|
        0 <= a < sent.len() && is_published(#[trigger] sent[a]) && 0 <= k
            < sent[a].summary->0.bullets.len() implies (
    #[trigger] sent[a].summary->0.bullets[k]).accepted is Some by {
        if a != i {
            assert(sent[a] == stored[a]);
            assert(is_published(stored[a]));
        }
    }
}

} // verus!
