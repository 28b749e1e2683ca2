//! Token budgeting: how many body tokens each article may keep so that the
//! combined text fits a ceiling, shrinking the longest bodies first.

use vstd::prelude::*;

verus! {

/// How many tokens the title and the body of one article encode to.
#[derive(Clone, Copy, Debug, PartialEq, Eq)]
pub struct ArticleTokens {
    pub title: usize,
    pub body: usize,
}

/// Sum of the title token counts.
pub open spec fn title_sum(counts: Seq<ArticleTokens>) -> nat
    decreases counts.len(),
{
    if counts.len() == 0 {
        0
    } else {
        title_sum(counts.drop_last()) + counts.last().title as nat
    }
}

/// Sum of the kept body token counts.
pub open spec fn body_sum(keep: Seq<usize>) -> nat
    decreases keep.len(),
{
    if keep.len() == 0 {
        0
    } else {
        body_sum(keep.drop_last()) + keep.last() as nat
    }
}

/// The full body token count of every article, in order.
pub open spec fn bodies(counts: Seq<ArticleTokens>) -> Seq<usize> {
    Seq::new(counts.len(), |i: int| counts[i].body)
}

/// Estimated size of the combined text: all titles, the kept part of every
/// body, and a fixed allowance per article for the separators.
pub open spec fn estimated_total(counts: Seq<ArticleTokens>, keep: Seq<usize>, sep: usize) -> nat {
    title_sum(counts) + body_sum(keep) + sep as nat * counts.len()
}

/// By how much an estimate exceeds the ceiling; zero when it fits.
pub open spec fn excess_over(total: nat, max_total: usize) -> nat {
    if total > max_total as nat {
        (total - max_total as nat) as nat
    } else {
        0
    }
}

/// Some body is still strictly above the floor and may be trimmed.
pub open spec fn has_trimmable(keep: Seq<usize>, floor: usize) -> bool {
    exists|i: int| 0 <= i < keep.len() && #[trigger] keep[i] > floor
}

/// `i` is the body to trim next: it is above the floor, no body is longer,
/// and no earlier body is as long.
pub open spec fn is_tallest(keep: Seq<usize>, floor: usize, i: int) -> bool {
    &&& 0 <= i < keep.len()
    &&& keep[i] > floor
    &&& forall|j: int| 0 <= j < keep.len() ==> #[trigger] keep[j] <= keep[i]
    &&& forall|j: int| 0 <= j < i ==> #[trigger] keep[j] < keep[i]
}

/// `r` is the length of the longest body other than body `i`, or zero when
/// there is no other body.
pub open spec fn is_runner_up(keep: Seq<usize>, i: int, r: nat) -> bool {
    &&& forall|j: int| 0 <= j < keep.len() && j != i ==> #[trigger] keep[j] as nat <= r
    &&& r == 0 || exists|j: int| 0 <= j < keep.len() && j != i && #[trigger] keep[j] as nat == r
}

/// The body to trim next.
pub open spec fn tallest(keep: Seq<usize>, floor: usize) -> int {
    choose|i: int| is_tallest(keep, floor, i)
}

/// The length of the longest body other than body `i`.
pub open spec fn runner_up(keep: Seq<usize>, i: int) -> nat {
    choose|r: nat| is_runner_up(keep, i, r)
}

/// How many tokens one trimming step takes from a body of length `top`,
/// where `next` is the runner-up length and `excess` is what is still to be
/// saved. The body is levelled down to the runner-up when that one is itself
/// trimmable and shorter; otherwise (a tie, or no other trimmable body) it is
/// cut down to the floor. A step never saves more than is still needed.
pub open spec fn shave_amount(top: nat, next: nat, floor: usize, excess: nat) -> nat {
    let step = if (floor as nat) < next && next < top {
        (top - next) as nat
    } else {
        (top - floor as nat) as nat
    };
    if step <= excess {
        step
    } else {
        excess
    }
}

/// One trimming step applied to `keep`.
pub open spec fn trim_once(keep: Seq<usize>, floor: usize, excess: nat) -> Seq<usize> {
    let i = tallest(keep, floor);
    let s = shave_amount(keep[i] as nat, runner_up(keep, i), floor, excess);
    keep.update(i, (keep[i] - s) as usize)
}

/// What one trimming step saves.
pub open spec fn saved_once(keep: Seq<usize>, floor: usize, excess: nat) -> nat {
    let i = tallest(keep, floor);
    shave_amount(keep[i] as nat, runner_up(keep, i), floor, excess)
}

/// The kept lengths after trimming: steps are applied until nothing more is
/// to be saved or no body is above the floor.
pub open spec fn leveled(keep: Seq<usize>, floor: usize, excess: nat) -> Seq<usize>
    decreases excess,
{
    if excess == 0 || !has_trimmable(keep, floor) {
        keep
    } else {
        let s = saved_once(keep, floor, excess);
        if 1 <= s <= excess {
            leveled(trim_once(keep, floor, excess), floor, (excess - s) as nat)
        } else {
            keep
        }
    }
}


/// At most one body is the next to trim.
pub proof fn lemma_tallest_unique(keep: Seq<usize>, floor: usize, i: int, j: int)
    requires
        is_tallest(keep, floor, i),
        is_tallest(keep, floor, j),
    ensures
        i == j,
{
    if i < j {
        assert(keep[i] < keep[j]);
        assert(keep[j] <= keep[i]);
    } else if j < i {
        assert(keep[j] < keep[i]);
        assert(keep[i] <= keep[j]);
    }
}

/// Where some body is above the floor, one of them is the next to trim.
pub proof fn lemma_tallest_exists(keep: Seq<usize>, floor: usize) -> (i: int)
    requires
        has_trimmable(keep, floor),
    ensures
        is_tallest(keep, floor, i),
        i == tallest(keep, floor),
    decreases keep.len(),
{
    let last = keep.len() - 1;
    let front = keep.drop_last();
    let found = if has_trimmable(front, floor) {
        let p = lemma_tallest_exists(front, floor);
        assert(front[p] == keep[p]);
        assert forall|j: int| 0 <= j < keep.len() implies #[trigger] keep[j] <= keep[p] || keep[j]
            == keep[last] by {
            if j < last {
                assert(front[j] == keep[j]);
            }
        }
        assert forall|j: int| 0 <= j < p implies #[trigger] keep[j] < keep[p] by {
            assert(front[j] == keep[j]);
        }
        if keep[last] > keep[p] {
            assert forall|j: int| 0 <= j < last implies #[trigger] keep[j] < keep[last] by {
                assert(front[j] == keep[j]);
                assert(front[j] <= front[p]);
            }
            last
        } else {
            p
        }
    } else {
        let w = choose|w: int| 0 <= w < keep.len() && #[trigger] keep[w] > floor;
        if w < last {
            assert(front[w] > floor);
        }
        assert forall|j: int| 0 <= j < last implies #[trigger] keep[j] < keep[last] by {
            assert(front[j] == keep[j]);
            if front[j] > floor {
                assert(has_trimmable(front, floor));
            }
        }
        last
    };
    assert(is_tallest(keep, floor, found));
    lemma_tallest_unique(keep, floor, found, tallest(keep, floor));
    found
}

/// The runner-up length is determined by the sequence and the position left out.
pub proof fn lemma_runner_up_unique(keep: Seq<usize>, i: int, a: nat, b: nat)
    requires
        is_runner_up(keep, i, a),
        is_runner_up(keep, i, b),
    ensures
        a == b,
{
    if a < b {
        let j = choose|j: int| 0 <= j < keep.len() && j != i && #[trigger] keep[j] as nat == b;
        assert(keep[j] as nat <= a);
    } else if b < a {
        let j = choose|j: int| 0 <= j < keep.len() && j != i && #[trigger] keep[j] as nat == a;
        assert(keep[j] as nat <= b);
    }
}

/// Every sequence has a runner-up length for every position left out.
pub proof fn lemma_runner_up_exists(keep: Seq<usize>, i: int) -> (r: nat)
    ensures
        is_runner_up(keep, i, r),
        r == runner_up(keep, i),
    decreases keep.len(),
{
    let found: nat = if keep.len() == 0 {
        0
    } else {
        let last = keep.len() - 1;
        let front = keep.drop_last();
        let p = lemma_runner_up_exists(front, i);
        assert forall|j: int| 0 <= j < last && j != i implies #[trigger] keep[j] as nat <= p by {
            assert(front[j] == keep[j]);
        }
        if p != 0 {
            let j = choose|j: int| 0 <= j < front.len() && j != i && #[trigger] front[j] as nat == p;
            assert(keep[j] as nat == p);
        }
        if last != i && keep[last] as nat > p {
            keep[last] as nat
        } else {
            p
        }
    };
    assert(is_runner_up(keep, i, found));
    lemma_runner_up_unique(keep, i, found, runner_up(keep, i));
    found
}

/// Replacing one entry changes the sum by the difference of the two values.
pub proof fn lemma_body_sum_update(keep: Seq<usize>, i: int, v: usize)
    requires
        0 <= i < keep.len(),
    ensures
        body_sum(keep.update(i, v)) + keep[i] as nat == body_sum(keep) + v as nat,
    decreases keep.len(),
{
    let last = keep.len() - 1;
    if i == last {
        assert(keep.update(i, v).drop_last() =~= keep.drop_last());
    } else {
        assert(keep.update(i, v).drop_last() =~= keep.drop_last().update(i, v));
        lemma_body_sum_update(keep.drop_last(), i, v);
    }
}

/// What one trimming step does, where a step is due: it takes between one
/// token and the whole excess from the tallest body, never cuts below the
/// floor, and leaves every other body alone.
pub proof fn lemma_trim_once(keep: Seq<usize>, floor: usize, excess: nat)
    requires
        excess > 0,
        has_trimmable(keep, floor),
    ensures
        is_tallest(keep, floor, tallest(keep, floor)),
        1 <= saved_once(keep, floor, excess) <= excess,
        saved_once(keep, floor, excess) + floor as nat <= keep[tallest(keep, floor)] as nat,
        trim_once(keep, floor, excess) == keep.update(
            tallest(keep, floor),
            (keep[tallest(keep, floor)] - saved_once(keep, floor, excess)) as usize,
        ),
        body_sum(trim_once(keep, floor, excess)) + saved_once(keep, floor, excess) == body_sum(
            keep,
        ),
{
    let i = lemma_tallest_exists(keep, floor);
    let r = lemma_runner_up_exists(keep, i);
    if r != 0 {
        let j = choose|j: int| 0 <= j < keep.len() && j != i && #[trigger] keep[j] as nat == r;
        assert(keep[j] <= keep[i]);
    }
    let s = saved_once(keep, floor, excess);
    lemma_body_sum_update(keep, i, (keep[i] - s) as usize);
}

/// What trimming guarantees: no body grows, a body at or below the floor is
/// left as it is, a body above the floor is never cut below it, the sum
/// shrinks by no more than the excess, and trimming stops short of the excess
/// only when no body is above the floor any more.
pub proof fn lemma_leveled(keep: Seq<usize>, floor: usize, excess: nat)
    ensures
        leveled(keep, floor, excess).len() == keep.len(),
        forall|i: int| 0 <= i < keep.len() ==> #[trigger] leveled(keep, floor, excess)[i] <= keep[i],
        forall|i: int|
            0 <= i < keep.len() && keep[i] <= floor ==> #[trigger] leveled(keep, floor, excess)[i]
                == keep[i],
        forall|i: int|
            0 <= i < keep.len() && keep[i] >= floor ==> #[trigger] leveled(keep, floor, excess)[i]
                >= floor,
        body_sum(leveled(keep, floor, excess)) <= body_sum(keep),
        body_sum(keep) - body_sum(leveled(keep, floor, excess)) <= excess,
        body_sum(keep) - body_sum(leveled(keep, floor, excess)) == excess || !has_trimmable(
            leveled(keep, floor, excess),
            floor,
        ),
    decreases excess,
{
    if excess == 0 || !has_trimmable(keep, floor) {
    } else {
        lemma_trim_once(keep, floor, excess);
        let s = saved_once(keep, floor, excess);
        let next = trim_once(keep, floor, excess);
        lemma_leveled(next, floor, (excess - s) as nat);
        let out = leveled(keep, floor, excess);
        assert(out == leveled(next, floor, (excess - s) as nat));
        assert forall|i: int| 0 <= i < keep.len() implies #[trigger] out[i] <= keep[i] by {
            assert(next[i] <= keep[i]);
        }
        assert forall|i: int| 0 <= i < keep.len() && keep[i] <= floor implies #[trigger] out[i]
            == keep[i] by {
            assert(next[i] == keep[i]);
        }
        assert forall|i: int| 0 <= i < keep.len() && keep[i] >= floor implies #[trigger] out[i]
            >= floor by {
            assert(next[i] >= floor);
        }
    }
}


/// Finds the body to trim next, if any body is above the floor.
pub fn find_tallest(keep: &Vec<usize>, floor: usize) -> (found: Option<usize>)
    ensures
        match found {
            Some(i) => is_tallest(keep@, floor, i as int) && i as int == tallest(keep@, floor),
            None => !has_trimmable(keep@, floor),
        },
{
    let mut best: Option<usize> = None;
    let mut k: usize = 0;
    while k < keep.len()
        invariant
            k <= keep.len(),
            match best {
                Some(i) => {
                    &&& i < k
                    &&& keep@[i as int] > floor
                    &&& forall|j: int| 0 <= j < k ==> #[trigger] keep@[j] <= keep@[i as int]
                    &&& forall|j: int| 0 <= j < i ==> #[trigger] keep@[j] < keep@[i as int]
                },
                None => forall|j: int| 0 <= j < k ==> #[trigger] keep@[j] <= floor,
            },
        decreases keep.len() - k,
    {
        let here: usize = keep[k];
        match best {
            Some(i) => {
                if here > keep[i] {
                    best = Some(k);
                }
            },
            None => {
                if here > floor {
                    best = Some(k);
                }
            },
        }
        k = k + 1;
    }
    proof {
        match best {
            Some(i) => {
                assert(is_tallest(keep@, floor, i as int));
                let t = lemma_tallest_exists(keep@, floor);
                lemma_tallest_unique(keep@, floor, i as int, t);
            },
            None => {},
        }
    }
    best
}

/// Finds the length of the longest body other than body `skip`.
pub fn find_runner_up(keep: &Vec<usize>, skip: usize) -> (next: usize)
    ensures
        is_runner_up(keep@, skip as int, next as nat),
        next as nat == runner_up(keep@, skip as int),
{
    let mut next: usize = 0;
    let mut k: usize = 0;
    while k < keep.len()
        invariant
            k <= keep.len(),
            forall|j: int| 0 <= j < k && j != skip ==> #[trigger] keep@[j] <= next,
            next == 0 || exists|j: int| 0 <= j < k && j != skip && #[trigger] keep@[j] == next,
        decreases keep.len() - k,
    {
        if k != skip && keep[k] > next {
            next = keep[k];
        }
        k = k + 1;
    }
    proof {
        if next != 0 {
            let j = choose|j: int| 0 <= j < keep@.len() && j != skip && #[trigger] keep@[j] == next;
            assert(keep@[j] as nat == next as nat);
        }
        assert(is_runner_up(keep@, skip as int, next as nat));
        let r = lemma_runner_up_exists(keep@, skip as int);
        lemma_runner_up_unique(keep@, skip as int, next as nat, r);
    }
    next
}

/// Trims `keep` until `excess` tokens are saved or no body is above `floor`.
/// Returns the trimmed lengths and how much of the excess is left.
pub fn level_down(keep: Vec<usize>, floor: usize, excess: usize) -> (out: (Vec<usize>, usize))
    ensures
        out.0@ == leveled(keep@, floor, excess as nat),
        out.1 as nat + body_sum(keep@) == excess as nat + body_sum(out.0@),
        out.1 == 0 || !has_trimmable(out.0@, floor),
{
    let ghost start = keep@;
    let mut keep = keep;
    let mut need: usize = excess;
    while need > 0
        invariant
            leveled(start, floor, excess as nat) == leveled(keep@, floor, need as nat),
            need as nat + body_sum(start) == excess as nat + body_sum(keep@),
        ensures
            leveled(start, floor, excess as nat) == keep@,
            need as nat + body_sum(start) == excess as nat + body_sum(keep@),
            need == 0 || !has_trimmable(keep@, floor),
        decreases need,
    {
        match find_tallest(&keep, floor) {
            None => {
                break ;
            },
            Some(i) => {
                let top: usize = keep[i];
                let next: usize = find_runner_up(&keep, i);
                let step: usize = if floor < next && next < top {
                    top - next
                } else {
                    top - floor
                };
                let shave: usize = if step <= need {
                    step
                } else {
                    need
                };
                proof {
                    lemma_trim_once(keep@, floor, need as nat);
                    assert(shave as nat == saved_once(keep@, floor, need as nat));
                }
                keep.set(i, top - shave);
                need = need - shave;
            },
        }
    }
    (keep, need)
}


/// The estimate with every body kept whole.
pub open spec fn full_total(counts: Seq<ArticleTokens>, sep: usize) -> nat {
    estimated_total(counts, bodies(counts), sep)
}

/// The kept lengths that budgeting arrives at.
pub open spec fn planned_keep(
    counts: Seq<ArticleTokens>,
    max_total: usize,
    min_body: usize,
    sep: usize,
) -> Seq<usize> {
    leveled(bodies(counts), min_body, excess_over(full_total(counts, sep), max_total))
}

/// The estimate under the kept lengths that budgeting arrives at.
pub open spec fn planned_total(
    counts: Seq<ArticleTokens>,
    max_total: usize,
    min_body: usize,
    sep: usize,
) -> nat {
    estimated_total(counts, planned_keep(counts, max_total, min_body, sep), sep)
}

/// The full estimate grows by one article's title, body and separator
/// allowance when that article is appended.
pub proof fn lemma_full_total_step(counts: Seq<ArticleTokens>, sep: usize)
    requires
        counts.len() > 0,
    ensures
        full_total(counts, sep) == full_total(counts.drop_last(), sep) + counts.last().title as nat
            + counts.last().body as nat + sep as nat,
{
    assert(bodies(counts).drop_last() =~= bodies(counts.drop_last()));
    assert(sep as nat * counts.len() == sep as nat * counts.drop_last().len() + sep as nat)
        by (nonlinear_arith)
        requires
            counts.len() == counts.drop_last().len() + 1,
    ;
}

/// The full estimate of a prefix never exceeds that of the whole list.
pub proof fn lemma_full_total_prefix(counts: Seq<ArticleTokens>, sep: usize, k: int)
    requires
        0 <= k <= counts.len(),
    ensures
        full_total(counts.take(k), sep) <= full_total(counts, sep),
    decreases counts.len(),
{
    if k == counts.len() {
        assert(counts.take(k) =~= counts);
    } else {
        lemma_full_total_step(counts, sep);
        lemma_full_total_prefix(counts.drop_last(), sep, k);
        assert(counts.drop_last().take(k) =~= counts.take(k));
    }
}

/// The estimate with every body kept whole, or `None` where it does not fit
/// a `usize`.
pub fn initial_total(counts: &Vec<ArticleTokens>, sep: usize) -> (total: Option<usize>)
    ensures
        match total {
            Some(t) => t as nat == full_total(counts@, sep),
            None => full_total(counts@, sep) > usize::MAX as nat,
        },
{
    let mut acc: usize = 0;
    let mut k: usize = 0;
    assert(counts@.take(0) =~= Seq::<ArticleTokens>::empty());
    while k < counts.len()
        invariant
            k <= counts.len(),
            acc as nat == full_total(counts@.take(k as int), sep),
        decreases counts.len() - k,
    {
        proof {
            assert(counts@.take(k + 1).drop_last() =~= counts@.take(k as int));
            lemma_full_total_step(counts@.take(k + 1), sep);
            lemma_full_total_prefix(counts@, sep, k + 1);
        }
        let with_title: usize = match acc.checked_add(counts[k].title) {
            Some(t) => t,
            None => {
                return None;
            },
        };
        let with_body: usize = match with_title.checked_add(counts[k].body) {
            Some(t) => t,
            None => {
                return None;
            },
        };
        acc = match with_body.checked_add(sep) {
            Some(t) => t,
            None => {
                return None;
            },
        };
        k = k + 1;
    }
    assert(counts@.take(k as int) =~= counts@);
    Some(acc)
}

/// The outcome of budgeting: how many body tokens each article keeps, and
/// the estimated size of the combined text under that choice.
#[derive(Clone, Debug, PartialEq, Eq)]
pub struct TokenBudgetPlan {
    pub keep: Vec<usize>,
    pub total: usize,
}

impl TokenBudgetPlan {
    /// Whether the planned text still exceeds the ceiling: every body is
    /// then at its floor and nothing more can be saved.
    pub fn is_over_budget(&self, max_total: usize) -> (over: bool)
        ensures
            over == (self.total > max_total),
    {
        self.total > max_total
    }
}

/// Decides how many body tokens each article keeps so that titles, kept
/// bodies and `sep` tokens per article stay within `max_total`, without
/// cutting any body below `min_body`. The longest body is trimmed first.
/// `None` is returned exactly where the untrimmed estimate does not fit a
/// `usize`.
pub fn plan_token_budget(
    counts: &Vec<ArticleTokens>,
    max_total: usize,
    min_body: usize,
    sep: usize,
) -> (plan: Option<TokenBudgetPlan>)
    ensures
        match plan {
            Some(p) => {
                &&& full_total(counts@, sep) <= usize::MAX as nat
                &&& p.keep@ == planned_keep(counts@, max_total, min_body, sep)
                &&& p.total as nat == planned_total(counts@, max_total, min_body, sep)
                &&& p.keep@.len() == counts@.len()
                &&& full_total(counts@, sep) <= max_total as nat ==> p.keep@ == bodies(counts@)
                &&& p.total <= max_total || forall|i: int|
                    0 <= i < p.keep@.len() ==> #[trigger] p.keep@[i] == floor_of(
                        counts@[i].body,
                        min_body,
                    )
                &&& full_total(counts@, sep) > max_total as nat ==> p.total >= max_total
                &&& forall|i: int|
                    0 <= i < counts@.len() ==> #[trigger] p.keep@[i] <= counts@[i].body
                &&& forall|i: int|
                    0 <= i < counts@.len() && counts@[i].body >= min_body
                        ==> #[trigger] p.keep@[i] >= min_body
                &&& forall|i: int|
                    0 <= i < counts@.len() && counts@[i].body <= min_body
                        ==> #[trigger] p.keep@[i] == counts@[i].body
            },
            None => full_total(counts@, sep) > usize::MAX as nat,
        },
{
    let total: usize = match initial_total(counts, sep) {
        Some(t) => t,
        None => {
            return None;
        },
    };
    let mut keep: Vec<usize> = Vec::new();
    let mut k: usize = 0;
    while k < counts.len()
        invariant
            k <= counts.len(),
            keep@.len() == k,
            forall|j: int| 0 <= j < k ==> #[trigger] keep@[j] == counts@[j].body,
        decreases counts.len() - k,
    {
        keep.push(counts[k].body);
        k = k + 1;
    }
    assert(keep@ =~= bodies(counts@));
    proof {
        lemma_leveled(
            bodies(counts@),
            min_body,
            excess_over(full_total(counts@, sep), max_total),
        );
        lemma_fits_or_every_body_at_its_floor(counts@, max_total, min_body, sep);
    }
    if total <= max_total {
        return Some(TokenBudgetPlan { keep, total });
    }
    let (kept, left) = level_down(keep, min_body, total - max_total);
    Some(TokenBudgetPlan { keep: kept, total: max_total + left })
}

/// Either the planned text fits the ceiling, or every body is at the floor.
/// This holds wherever the plan fits or no body started out below the floor:
/// a body that starts below the floor stays as short as it was.
pub proof fn lemma_fits_or_floors(
    counts: Seq<ArticleTokens>,
    max_total: usize,
    min_body: usize,
    sep: usize,
)
    requires
        planned_total(counts, max_total, min_body, sep) <= max_total as nat || forall|i: int|
            0 <= i < counts.len() ==> (#[trigger] counts[i]).body >= min_body,
    ensures
        planned_keep(counts, max_total, min_body, sep).len() == counts.len(),
        planned_total(counts, max_total, min_body, sep) <= max_total as nat || forall|i: int|
            0 <= i < counts.len() ==> #[trigger] planned_keep(counts, max_total, min_body, sep)[i]
                == min_body,
{
    let excess = excess_over(full_total(counts, sep), max_total);
    let out = planned_keep(counts, max_total, min_body, sep);
    lemma_leveled(bodies(counts), min_body, excess);
    if planned_total(counts, max_total, min_body, sep) > max_total as nat {
        assert(!has_trimmable(out, min_body));
        assert forall|i: int| 0 <= i < counts.len() implies #[trigger] out[i] == min_body by {
            assert(counts[i].body >= min_body);
            assert(bodies(counts)[i] >= min_body);
            assert(out[i] >= min_body);
        }
    }
}

/// The floor of one body: the common floor, or the body's own length where
/// that is shorter.
pub open spec fn floor_of(body: usize, min_body: usize) -> usize {
    if body <= min_body {
        body
    } else {
        min_body
    }
}

/// For every input: either the planned text fits the ceiling, or every
/// body is at its floor, which is the common floor or, for a body that
/// starts out shorter, its own length.
pub proof fn lemma_fits_or_every_body_at_its_floor(
    counts: Seq<ArticleTokens>,
    max_total: usize,
    min_body: usize,
    sep: usize,
)
    ensures
        planned_keep(counts, max_total, min_body, sep).len() == counts.len(),
        planned_total(counts, max_total, min_body, sep) <= max_total as nat || forall|i: int|
            0 <= i < counts.len() ==> #[trigger] planned_keep(counts, max_total, min_body, sep)[i]
                == floor_of(counts[i].body, min_body),
{
    let out = planned_keep(counts, max_total, min_body, sep);
    lemma_leveled(bodies(counts), min_body, excess_over(full_total(counts, sep), max_total));
    if planned_total(counts, max_total, min_body, sep) > max_total as nat {
        assert(!has_trimmable(out, min_body));
        assert forall|i: int| 0 <= i < counts.len() implies #[trigger] out[i] == floor_of(
            counts[i].body,
            min_body,
        ) by {
            assert(bodies(counts)[i] == counts[i].body);
            assert(out[i] <= min_body);
        }
    }
}

/// For every input: either the planned text fits the ceiling, or no body is
/// above the floor any more.
pub proof fn lemma_fits_or_nothing_trimmable(
    counts: Seq<ArticleTokens>,
    max_total: usize,
    min_body: usize,
    sep: usize,
)
    ensures
        planned_total(counts, max_total, min_body, sep) <= max_total as nat || !has_trimmable(
            planned_keep(counts, max_total, min_body, sep),
            min_body,
        ),
{
    lemma_leveled(bodies(counts), min_body, excess_over(full_total(counts, sep), max_total));
}

/// No article keeps more body tokens than it has; one that starts at or
/// above the floor is never cut below it; one that starts at or below the
/// floor is kept whole.
pub proof fn lemma_kept_within_bounds(
    counts: Seq<ArticleTokens>,
    max_total: usize,
    min_body: usize,
    sep: usize,
    i: int,
)
    requires
        0 <= i < counts.len(),
    ensures
        planned_keep(counts, max_total, min_body, sep).len() == counts.len(),
        planned_keep(counts, max_total, min_body, sep)[i] <= counts[i].body,
        counts[i].body >= min_body ==> planned_keep(counts, max_total, min_body, sep)[i]
            >= min_body,
        counts[i].body <= min_body ==> planned_keep(counts, max_total, min_body, sep)[i]
            == counts[i].body,
{
    lemma_leveled(bodies(counts), min_body, excess_over(full_total(counts, sep), max_total));
    assert(bodies(counts)[i] == counts[i].body);
}

/// Where the untrimmed text already fits the ceiling, nothing is trimmed.
pub proof fn lemma_fitting_input_is_untouched(
    counts: Seq<ArticleTokens>,
    max_total: usize,
    min_body: usize,
    sep: usize,
)
    requires
        full_total(counts, sep) <= max_total as nat,
    ensures
        planned_keep(counts, max_total, min_body, sep) == bodies(counts),
        planned_total(counts, max_total, min_body, sep) == full_total(counts, sep),
{
}

/// Trimming never saves more than is needed: where the untrimmed text is
/// over the ceiling, the planned text is not below it.
pub proof fn lemma_never_trims_below_ceiling(
    counts: Seq<ArticleTokens>,
    max_total: usize,
    min_body: usize,
    sep: usize,
)
    requires
        full_total(counts, sep) > max_total as nat,
    ensures
        planned_total(counts, max_total, min_body, sep) >= max_total as nat,
{
    lemma_leveled(bodies(counts), min_body, excess_over(full_total(counts, sep), max_total));
}

} // verus!
