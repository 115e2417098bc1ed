use vstd::prelude::*;
use crate::item::Item;
use crate::order::{sort_items, sort_spec};

verus! {

/// One remote reorder call: move the playlist membership `playlist_item_id`
/// (of video `video_id`) to the zero-based `position`.
pub struct ReorderOp {
    pub playlist_item_id: String,
    pub video_id: String,
    pub position: u32,
}

/// What the sort operation must do: nothing, because the playlist already
/// stands in canonical order, or one reorder call per entry, in sorted order.
pub enum SortPlan {
    /// The fetched video sequence already equals the canonical one — order
    /// included, not mere membership; no remote write happens.
    AlreadySorted,
    /// The canonical order differs: the sorted entries, and the reorder call
    /// for each one, position 0 first.
    Reorder(Vec<Item>, Vec<ReorderOp>),
}

/// The sequence of video identifiers, in playlist order: what the sort
/// operation compares to decide whether anything must move.
pub open spec fn video_ids(s: Seq<Item>) -> Seq<Seq<char>> {
    s.map_values(|v: Item| v.video_id@)
}

/// The reorder calls assign each sorted entry its own index as position.
pub open spec fn ops_match(sorted: Seq<Item>, ops: Seq<ReorderOp>) -> bool {
    &&& ops.len() == sorted.len()
    &&& forall|i: int|
        0 <= i < ops.len() ==> (#[trigger] ops[i]).playlist_item_id == sorted[i].playlist_item_id
            && ops[i].video_id == sorted[i].video_id && ops[i].position == i
}

fn clone_items(items: &Vec<Item>) -> (r: Vec<Item>)
    ensures
        r@ == items@,
{
    let mut r: Vec<Item> = Vec::new();
    let n: usize = items.len();
    for i in 0..n
        invariant
            n == items@.len(),
            r@ =~= items@.subrange(0, i as int),
    {
        r.push(items[i].clone());
        proof {
            assert(r@ =~= items@.subrange(0, i + 1));
        }
    }
    proof {
        assert(items@.subrange(0, n as int) =~= items@);
    }
    r
}

/// Decide the sort operation: report "already sorted" exactly when the
/// canonical order carries the same video sequence as the fetched order;
/// otherwise hand back the canonical order together with the reorder call for
/// every entry, position 0 first.
pub fn plan_sort(items: &Vec<Item>) -> (p: SortPlan)
    requires
        items@.len() <= u32::MAX,
    ensures
        match p {
            SortPlan::AlreadySorted => video_ids(items@) == video_ids(sort_spec(items@)),
            SortPlan::Reorder(sorted, ops) => {
                &&& video_ids(items@) != video_ids(sort_spec(items@))
                &&& sorted@ == sort_spec(items@)
                &&& ops_match(sorted@, ops@)
            },
        },
{
    let mut sorted = clone_items(items);
    sort_items(&mut sorted);
    proof {
        crate::order::lemma_sort_spec_props(items@);
    }
    let n: usize = sorted.len();
    let mut same = true;
    for i in 0..n
        invariant
            n == sorted@.len(),
            n == items@.len(),
            sorted@ == sort_spec(items@),
            same ==> forall|k: int| 0 <= k < i ==> items@[k].video_id@ == sorted@[k].video_id@,
            !same ==> video_ids(items@) != video_ids(sorted@),
    {
        if !items[i].video_id.eq(&sorted[i].video_id) {
            proof {
                assert(video_ids(items@)[i as int] == items@[i as int].video_id@);
                assert(video_ids(sorted@)[i as int] == sorted@[i as int].video_id@);
            }
            same = false;
        }
    }
    if same {
        proof {
            assert(video_ids(items@) =~= video_ids(sorted@));
        }
        SortPlan::AlreadySorted
    } else {
        let mut ops: Vec<ReorderOp> = Vec::new();
        for i in 0..n
            invariant
                n == sorted@.len() <= u32::MAX,
                sorted@ == sort_spec(items@),
                video_ids(items@) != video_ids(sorted@),
                ops@.len() == i,
                forall|k: int|
                    0 <= k < i ==> (#[trigger] ops@[k]).playlist_item_id
                        == sorted@[k].playlist_item_id && ops@[k].video_id == sorted@[k].video_id
                        && ops@[k].position == k,
        {
            let ghost pre = ops@;
            ops.push(
                ReorderOp {
                    playlist_item_id: sorted[i].playlist_item_id.clone(),
                    video_id: sorted[i].video_id.clone(),
                    position: i as u32,
                },
            );
            proof {
                assert(ops@[i as int].position == i as u32);
                assert forall|k: int| 0 <= k < i + 1 implies (#[trigger] ops@[k]).playlist_item_id
                    == sorted@[k].playlist_item_id && ops@[k].video_id == sorted@[k].video_id
                    && ops@[k].position == k by {
                    if k < i {
                        assert(ops@[k] == pre[k]);
                    }
                }
            }
        }
        SortPlan::Reorder(sorted, ops)
    }
}

} // verus!
