use vstd::prelude::*;
use crate::item::Item;
use crate::order::before;
use crate::order::ordered;

verus! {

/// The prune decision for one playlist entry. The three removal reasons are
/// mutually exclusive; each entry gets exactly one decision.
#[derive(Clone, Copy, PartialEq, Eq, Structural, Debug)]
pub enum Decision {
    /// The entry stays: it is a scheduled, unstreamed video, or a streamed
    /// video within the retention cap.
    Keep,
    /// The video is region-blocked; checked first, so it wins over every other
    /// reason.
    Blocked,
    /// A streamed, non-blocked video beyond the retention cap.
    SurplusStreamed,
    /// A non-blocked video with no time information at all.
    Unscheduled,
}

/// Whether an entry counts against the retention cap: streamed and not
/// blocked. Blocked entries are removed for being blocked and never consume
/// the cap.
pub open spec fn counts_toward_cap(v: Item) -> bool {
    !v.blocked && v.actual_start_time is Some
}

/// How many entries of `s[0..i]` count against the retention cap.
pub open spec fn streamed_seen(s: Seq<Item>, i: int) -> int
    decreases i,
{
    if i <= 0 {
        0
    } else {
        streamed_seen(s, i - 1) + if counts_toward_cap(s[i - 1]) {
            1int
        } else {
            0int
        }
    }
}

/// The decision for one entry, given how many cap-counting entries precede it
/// and the cap itself.
pub open spec fn decision_of(v: Item, seen: int, max: int) -> Decision {
    if v.blocked {
        Decision::Blocked
    } else if v.actual_start_time is Some {
        if seen < max {
            Decision::Keep
        } else {
            Decision::SurplusStreamed
        }
    } else if v.scheduled_start_time is None {
        Decision::Unscheduled
    } else {
        Decision::Keep
    }
}

/// The decision for the entry at position `i` of the walked sequence.
pub open spec fn decision_at(s: Seq<Item>, max: int, i: int) -> Decision {
    decision_of(s[i], streamed_seen(s, i), max)
}

/// How many entries of `s[0..i]` are streamed, non-blocked and kept under the
/// cap.
pub open spec fn kept_streamed(s: Seq<Item>, max: int, i: int) -> int
    decreases i,
{
    if i <= 0 {
        0
    } else {
        kept_streamed(s, max, i - 1) + if counts_toward_cap(s[i - 1]) && streamed_seen(s, i - 1)
            < max {
            1int
        } else {
            0int
        }
    }
}

/// Walk the sequence once, left to right, and decide every entry's fate:
/// blocked first, then the retention cap on streamed entries (the cap counts
/// only non-blocked streamed entries), then removal of entries with no time
/// information; everything else is kept. The caller walks the canonically
/// sorted sequence, so the cap keeps the newest-streamed entries.
pub fn classify_items(items: &Vec<Item>, max_streamed: usize) -> (r: Vec<Decision>)
    ensures
        r@.len() == items@.len(),
        forall|i: int|
            0 <= i < items@.len() ==> r@[i] == decision_at(items@, max_streamed as int, i),
{
    let mut r: Vec<Decision> = Vec::new();
    let mut seen: usize = 0;
    let n: usize = items.len();
    for idx in 0..n
        invariant
            n == items@.len(),
            r@.len() == idx,
            seen == streamed_seen(items@, idx as int),
            seen <= idx,
            forall|i: int| 0 <= i < idx ==> r@[i] == decision_at(items@, max_streamed as int, i),
    {
        let it = &items[idx];
        if it.blocked {
            r.push(Decision::Blocked);
        } else if it.actual_start_time.is_some() {
            if seen < max_streamed {
                r.push(Decision::Keep);
            } else {
                r.push(Decision::SurplusStreamed);
            }
            seen += 1;
        } else if it.scheduled_start_time.is_none() {
            r.push(Decision::Unscheduled);
        } else {
            r.push(Decision::Keep);
        }
    }
    r
}

/// A blocked entry is always flagged blocked, whatever the cap, the counters
/// or its schedule state say.
pub proof fn lemma_blocked_precedence(s: Seq<Item>, max: int, i: int)
    requires
        0 <= i < s.len(),
        s[i].blocked,
    ensures
        decision_at(s, max, i) == Decision::Blocked,
{
}

/// An entry with neither timestamp is flagged for removal as unscheduled
/// unless it is already flagged blocked.
pub proof fn lemma_unscheduled_removal(s: Seq<Item>, max: int, i: int)
    requires
        0 <= i < s.len(),
        !s[i].blocked,
        s[i].actual_start_time is None,
        s[i].scheduled_start_time is None,
    ensures
        decision_at(s, max, i) == Decision::Unscheduled,
{
}

proof fn lemma_streamed_seen_monotone(s: Seq<Item>, i: int, j: int)
    requires
        0 <= i <= j,
    ensures
        streamed_seen(s, i) <= streamed_seen(s, j),
    decreases j - i,
{
    if i < j {
        lemma_streamed_seen_monotone(s, i, j - 1);
    }
}

proof fn lemma_kept_streamed_min(s: Seq<Item>, max: int, i: int)
    requires
        max >= 0,
        0 <= i,
    ensures
        kept_streamed(s, max, i) == if streamed_seen(s, i) < max {
            streamed_seen(s, i)
        } else {
            max
        },
    decreases i,
{
    if i > 0 {
        lemma_kept_streamed_min(s, max, i - 1);
    }
}

/// Cap boundary: a streamed, non-blocked entry is kept exactly while fewer
/// than `max` such entries precede it, so exactly `min(max, total)` of them
/// are kept over the whole walk — and when the walked sequence is in canonical
/// order, every kept one was streamed at or after every surplus one, so the
/// kept ones are the most recently streamed.
pub proof fn lemma_cap_boundary(s: Seq<Item>, max: int)
    requires
        max >= 0,
    ensures
        forall|i: int|
            0 <= i < s.len() && counts_toward_cap(s[i]) ==> (decision_at(s, max, i)
                == Decision::Keep <==> streamed_seen(s, i) < max),
        forall|i: int|
            0 <= i < s.len() && counts_toward_cap(s[i]) ==> (decision_at(s, max, i)
                == Decision::SurplusStreamed <==> streamed_seen(s, i) >= max),
        kept_streamed(s, max, s.len() as int) == if streamed_seen(s, s.len() as int) < max {
            streamed_seen(s, s.len() as int)
        } else {
            max
        },
        ordered(s) ==> forall|i: int, j: int|
            0 <= i < s.len() && 0 <= j < s.len() && counts_toward_cap(s[i]) && counts_toward_cap(
                s[j],
            ) && decision_at(s, max, i) == Decision::Keep && decision_at(s, max, j)
                == Decision::SurplusStreamed ==> s[i].actual_start_time->0.spec_ge(
                s[j].actual_start_time->0,
            ),
{
    lemma_kept_streamed_min(s, max, s.len() as int);
    if ordered(s) {
        assert forall|i: int, j: int|
            0 <= i < s.len() && 0 <= j < s.len() && counts_toward_cap(s[i]) && counts_toward_cap(
                s[j],
            ) && decision_at(s, max, i) == Decision::Keep && decision_at(s, max, j)
                == Decision::SurplusStreamed implies s[i].actual_start_time->0.spec_ge(
            s[j].actual_start_time->0,
        ) by {
            if j <= i {
                lemma_streamed_seen_monotone(s, j, i);
            }
            assert(i < j);
            assert(!before(s[j], s[i]));
        }
    }
}

} // verus!
