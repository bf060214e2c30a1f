use vstd::prelude::*;
use crate::entity::{DocumentItem, DocumentItemView, copy_ids, contains_id};
use crate::records::Document;

verus! {

/// How many levels below the candidate ancestor `is_document_item_child_of` looks.
pub const DESCENDANT_DEPTH: u64 = 10;

pub open spec fn items_view(items: Seq<DocumentItem>) -> Seq<DocumentItemView> {
    items.map_values(|d: DocumentItem| d@)
}

/// Ids of the live items whose `children` hold `id`, in store order.
pub open spec fn parent_ids(items: Seq<DocumentItemView>, id: i64) -> Seq<i64>
    decreases items.len(),
{
    if items.len() == 0 {
        Seq::empty()
    } else {
        let rest = parent_ids(items.drop_last(), id);
        let last = items.last();
        if !last.is_delete && last.children.contains(id) {
            rest.push(last.id)
        } else {
            rest
        }
    }
}

/// The children recorded on the item with id `x` (the last one, were ids
/// repeated); none where no item has that id.
pub open spec fn children_of(items: Seq<DocumentItemView>, x: i64) -> Seq<i64>
    decreases items.len(),
{
    if items.len() == 0 {
        Seq::empty()
    } else if items.last().id == x {
        items.last().children
    } else {
        children_of(items.drop_last(), x)
    }
}

/// The children of every id of `level`, one after another.
pub open spec fn next_level(items: Seq<DocumentItemView>, level: Seq<i64>) -> Seq<i64>
    decreases level.len(),
{
    if level.len() == 0 {
        Seq::empty()
    } else {
        next_level(items, level.drop_last()) + children_of(items, level.last())
    }
}

/// The ids `k + 1` child links below `root` (with repetitions).
pub open spec fn level(items: Seq<DocumentItemView>, root: i64, k: nat) -> Seq<i64>
    decreases k,
{
    if k == 0 {
        children_of(items, root)
    } else {
        next_level(items, level(items, root, (k - 1) as nat))
    }
}

/// `id` lies at most `depth + 1` child links below `root`.
pub open spec fn found_within(items: Seq<DocumentItemView>, id: i64, root: i64, depth: nat) -> bool
    decreases depth,
{
    level(items, root, depth).contains(id) || (depth > 0 && found_within(
        items,
        id,
        root,
        (depth - 1) as nat,
    ))
}

/// The children recorded on the item with id `x`.
pub fn lookup_children(items: &Vec<DocumentItem>, x: i64) -> (r: Vec<i64>)
    ensures
        r@ == children_of(items_view(items@), x),
{
    let ghost iv = items_view(items@);
    let mut i: usize = items.len();
    assert(iv.take(i as int) =~= iv);
    while i > 0
        invariant
            i <= items@.len(),
            iv == items_view(items@),
            children_of(iv, x) == children_of(iv.take(i as int), x),
        decreases i,
    {
        assert(iv.take(i as int).drop_last() =~= iv.take(i - 1));
        if items[i - 1].id == x {
            return copy_ids(&items[i - 1].children);
        }
        i = i - 1;
    }
    assert(iv.take(0) =~= Seq::<DocumentItemView>::empty());
    Vec::new()
}

/// Ids of the live items whose `children` hold `id`.
pub fn compute_parents(items: &Vec<DocumentItem>, id: i64) -> (r: Vec<i64>)
    ensures
        r@ == parent_ids(items_view(items@), id),
{
    let ghost iv = items_view(items@);
    let mut r: Vec<i64> = Vec::new();
    let mut i: usize = 0;
    while i < items.len()
        invariant
            i <= items@.len(),
            iv == items_view(items@),
            r@ == parent_ids(iv.take(i as int), id),
        decreases items@.len() - i,
    {
        assert(iv.take(i + 1).drop_last() =~= iv.take(i as int));
        if !items[i].is_delete && contains_id(&items[i].children, id) {
            r.push(items[i].id);
        }
        i = i + 1;
    }
    assert(iv.take(items@.len() as int) =~= iv);
    r
}

/// Whether `id` lies at most `depth + 1` child links below `parent_id`,
/// walking the children level by level.
pub fn is_child_within(items: &Vec<DocumentItem>, id: i64, parent_id: i64, depth: u64) -> (r: bool)
    ensures
        r == found_within(items_view(items@), id, parent_id, depth as nat),
{
    let ghost iv = items_view(items@);
    let mut current = lookup_children(items, parent_id);
    if contains_id(&current, id) {
        proof { found_within_monotone(iv, id, parent_id, 0, depth as nat); }
        return true;
    }
    let mut count: u64 = 0;
    while count < depth
        invariant
            count <= depth,
            iv == items_view(items@),
            current@ == level(iv, parent_id, count as nat),
            !found_within(iv, id, parent_id, count as nat),
        decreases depth - count,
    {
        let mut next: Vec<i64> = Vec::new();
        let mut j: usize = 0;
        while j < current.len()
            invariant
                j <= current@.len(),
                iv == items_view(items@),
                next@ == next_level(iv, current@.take(j as int)),
            decreases current@.len() - j,
        {
            let mut ch = lookup_children(items, current[j]);
            assert(current@.take(j + 1).drop_last() =~= current@.take(j as int));
            next.append(&mut ch);
            j = j + 1;
        }
        assert(current@.take(current@.len() as int) =~= current@);
        count = count + 1;
        if contains_id(&next, id) {
            proof { found_within_monotone(iv, id, parent_id, count as nat, depth as nat); }
            return true;
        }
        current = next;
    }
    false
}

/// Being found at some level within the cap counts as found.
pub proof fn found_within_monotone(items: Seq<DocumentItemView>, id: i64, root: i64, k: nat, depth: nat)
    requires
        k <= depth,
        level(items, root, k).contains(id),
    ensures
        found_within(items, id, root, depth),
    decreases depth,
{
    if k < depth {
        found_within_monotone(items, id, root, k, (depth - 1) as nat);
    }
}

/// Whether `id` lies below `parent_id` within the default depth cap.
/// A deeper descendant is reported as not found; a cycle cannot make this loop.
pub fn is_document_item_child_of(items: &Vec<DocumentItem>, id: i64, parent_id: i64) -> (r: bool)
    ensures
        r == found_within(items_view(items@), id, parent_id, DESCENDANT_DEPTH as nat),
{
    is_child_within(items, id, parent_id, DESCENDANT_DEPTH)
}


/// The item with its parents cache recomputed from `items`, if it is live.
pub open spec fn refreshed(items: Seq<DocumentItemView>, d: DocumentItemView) -> DocumentItemView {
    if d.is_delete {
        d
    } else {
        DocumentItemView { parents: parent_ids(items, d.id), ..d }
    }
}

/// Recomputes the parents cache of every live item: the ids of the live
/// items whose children hold its id.
pub fn init_all_document_item_parents(items: &mut Vec<DocumentItem>)
    ensures
        items_view(final(items)@) == items_view(old(items)@).map_values(
            |d: DocumentItemView| refreshed(items_view(old(items)@), d),
        ),
{
    let ghost iv = items_view(items@);
    let mut lists: Vec<Vec<i64>> = Vec::new();
    let mut i: usize = 0;
    while i < items.len()
        invariant
            i <= items@.len(),
            iv == items_view(items@),
            lists@.len() == i,
            forall|k: int| 0 <= k < i ==> (#[trigger] lists@[k])@ == parent_ids(iv, iv[k].id),
        decreases items@.len() - i,
    {
        let id = items[i].id;
        let p = compute_parents(items, id);
        lists.push(p);
        i = i + 1;
    }
    let mut j: usize = 0;
    while j < items.len()
        invariant
            j <= items@.len(),
            items@.len() == iv.len(),
            lists@.len() == iv.len(),
            forall|k: int| 0 <= k < iv.len() ==> (#[trigger] lists@[k])@ == parent_ids(iv, iv[k].id),
            forall|k: int| 0 <= k < j ==> #[trigger] items_view(items@)[k] == refreshed(iv, iv[k]),
            forall|k: int| j <= k < iv.len() ==> #[trigger] items_view(items@)[k] == iv[k],
        decreases iv.len() - j,
    {
        let ghost pre = items@;
        assert(items_view(items@)[j as int] == iv[j as int]);
        if !items[j].is_delete {
            let mut d = items[j].duplicate();
            d.parents = copy_ids(&lists[j]);
            items.set(j, d);
            assert forall|k: int| 0 <= k < iv.len() && k != j implies #[trigger] items_view(items@)[k] == items_view(pre)[k] by {
                assert(items@[k] == pre[k]);
            }
        }
        assert(items_view(items@)[j as int] == refreshed(iv, iv[j as int]));
        j = j + 1;
    }
    assert(items_view(items@) =~= iv.map_values(|d: DocumentItemView| refreshed(iv, d)));
}

/// The item with its parents cache recomputed from `items`, if its id is
/// one of `ids`.
pub open spec fn refreshed_if(items: Seq<DocumentItemView>, ids: Seq<i64>, d: DocumentItemView) -> DocumentItemView {
    if ids.contains(d.id) {
        DocumentItemView { parents: parent_ids(items, d.id), ..d }
    } else {
        d
    }
}

/// Recomputes the parents cache of the items whose ids are in `ids`, taking
/// every live item as a candidate parent.
pub fn init_document_item_parents_by_ids(items: &mut Vec<DocumentItem>, ids: &Vec<i64>)
    ensures
        items_view(final(items)@) == items_view(old(items)@).map_values(
            |d: DocumentItemView| refreshed_if(items_view(old(items)@), ids@, d),
        ),
{
    let ghost iv = items_view(items@);
    let mut lists: Vec<Vec<i64>> = Vec::new();
    let mut i: usize = 0;
    while i < items.len()
        invariant
            i <= items@.len(),
            iv == items_view(items@),
            lists@.len() == i,
            forall|k: int| 0 <= k < i ==> (#[trigger] lists@[k])@ == parent_ids(iv, iv[k].id),
        decreases items@.len() - i,
    {
        let id = items[i].id;
        let p = compute_parents(items, id);
        lists.push(p);
        i = i + 1;
    }
    let mut j: usize = 0;
    while j < items.len()
        invariant
            j <= items@.len(),
            items@.len() == iv.len(),
            lists@.len() == iv.len(),
            forall|k: int| 0 <= k < iv.len() ==> (#[trigger] lists@[k])@ == parent_ids(iv, iv[k].id),
            forall|k: int| 0 <= k < j ==> #[trigger] items_view(items@)[k] == refreshed_if(iv, ids@, iv[k]),
            forall|k: int| j <= k < iv.len() ==> #[trigger] items_view(items@)[k] == iv[k],
        decreases iv.len() - j,
    {
        let ghost pre = items@;
        assert(items_view(items@)[j as int] == iv[j as int]);
        if contains_id(ids, items[j].id) {
            let mut d = items[j].duplicate();
            d.parents = copy_ids(&lists[j]);
            items.set(j, d);
            assert forall|k: int| 0 <= k < iv.len() && k != j implies #[trigger] items_view(items@)[k] == items_view(pre)[k] by {
                assert(items@[k] == pre[k]);
            }
        }
        assert(items_view(items@)[j as int] == refreshed_if(iv, ids@, iv[j as int]));
        j = j + 1;
    }
    assert(items_view(items@) =~= iv.map_values(|d: DocumentItemView| refreshed_if(iv, ids@, d)));
}


/// The position of the item with id `x` (the last one, were ids repeated),
/// or -1.
pub open spec fn last_index(items: Seq<DocumentItemView>, x: i64) -> int
    decreases items.len(),
{
    if items.len() == 0 {
        -1
    } else if items.last().id == x {
        items.len() - 1
    } else {
        last_index(items.drop_last(), x)
    }
}

/// What a walk follows from an item: its children (`down`) or its cached
/// parents.
pub open spec fn step_of(d: DocumentItemView, down: bool) -> Seq<i64> {
    if down {
        d.children
    } else {
        d.parents
    }
}

/// The ids a walk follows from id `x`; none where no item has it.
pub open spec fn links_of(items: Seq<DocumentItemView>, x: i64, down: bool) -> Seq<i64> {
    let i = last_index(items, x);
    if i >= 0 {
        step_of(items[i], down)
    } else {
        Seq::empty()
    }
}

/// `y` is one of `seeds` or lies at most `n` steps beyond one.
pub open spec fn reach(items: Seq<DocumentItemView>, seeds: Seq<i64>, y: i64, n: nat, down: bool) -> bool
    decreases n,
{
    seeds.contains(y) || (n > 0 && exists|z: i64|
        reach(items, seeds, z, (n - 1) as nat, down) && #[trigger] links_of(items, z, down).contains(y))
}

/// `y` is one of `seeds` or lies some steps beyond one.
pub open spec fn reachable_from(items: Seq<DocumentItemView>, seeds: Seq<i64>, y: i64, down: bool) -> bool {
    exists|n: nat| reach(items, seeds, y, n, down)
}

/// Every id reachable from `seeds`.
pub open spec fn reach_set(items: Seq<DocumentItemView>, seeds: Seq<i64>, down: bool) -> Set<i64> {
    Set::new(|y: i64| reachable_from(items, seeds, y, down))
}

proof fn lemma_last_index_range(items: Seq<DocumentItemView>, x: i64)
    ensures
        -1 <= last_index(items, x) < items.len(),
        last_index(items, x) >= 0 ==> items[last_index(items, x)].id == x,
    decreases items.len(),
{
    if items.len() > 0 && items.last().id != x {
        lemma_last_index_range(items.drop_last(), x);
    }
}

/// The number of `false` entries.
pub open spec fn count_false(s: Seq<bool>) -> nat
    decreases s.len(),
{
    if s.len() == 0 {
        0
    } else {
        count_false(s.drop_last()) + if s.last() { 0nat } else { 1nat }
    }
}

proof fn lemma_count_false_set(s: Seq<bool>, j: int)
    requires
        0 <= j < s.len(),
        !s[j],
    ensures
        count_false(s.update(j, true)) + 1 == count_false(s),
    decreases s.len(),
{
    let t = s.update(j, true);
    if j == s.len() - 1 {
        assert(t.drop_last() =~= s.drop_last());
    } else {
        assert(t.drop_last() =~= s.drop_last().update(j, true));
        lemma_count_false_set(s.drop_last(), j);
    }
}

/// The position of the item with id `x`, if any.
fn find_last(items: &Vec<DocumentItem>, x: i64) -> (r: Option<usize>)
    ensures
        match r {
            Some(i) => i as int == last_index(items_view(items@), x),
            None => last_index(items_view(items@), x) == -1,
        },
{
    let ghost iv = items_view(items@);
    let mut i: usize = items.len();
    assert(iv.take(i as int) =~= iv);
    while i > 0
        invariant
            i <= items@.len(),
            iv == items_view(items@),
            last_index(iv, x) == last_index(iv.take(i as int), x),
        decreases i,
    {
        assert(iv.take(i as int).drop_last() =~= iv.take(i - 1));
        if items[i - 1].id == x {
            return Some(i - 1);
        }
        i = i - 1;
    }
    None
}

/// Every id reachable from `seeds`, each once: the seeds, what they lead
/// to, and so on. A cycle cannot make this loop, and an id with no item
/// leads nowhere.
fn walk(items: &Vec<DocumentItem>, seeds: &Vec<i64>, down: bool) -> (r: Vec<i64>)
    ensures
        r@.no_duplicates(),
        forall|k: int| 0 <= k < r@.len() ==> reachable_from(items_view(items@), seeds@, #[trigger] r@[k], down),
        forall|y: i64| #[trigger] seeds@.contains(y) ==> r@.contains(y),
        forall|k: int, y: i64| 0 <= k < r@.len() && #[trigger] links_of(items_view(items@), r@[k], down).contains(y) ==> r@.contains(y),
{
    let ghost iv = items_view(items@);
    let mut visited: Vec<bool> = Vec::new();
    let mut v: usize = 0;
    while v < items.len()
        invariant
            v <= items@.len(),
            visited@.len() == v,
            forall|k: int| 0 <= k < v ==> !visited@[k],
        decreases items@.len() - v,
    {
        visited.push(false);
        v = v + 1;
    }
    let mut r: Vec<i64> = Vec::new();
    let mut s: usize = 0;
    while s < seeds.len()
        invariant
            s <= seeds@.len(),
            r@.no_duplicates(),
            forall|k: int| 0 <= k < r@.len() ==> reachable_from(iv, seeds@, #[trigger] r@[k], down),
            forall|t: int| 0 <= t < s ==> r@.contains(#[trigger] seeds@[t]),
        decreases seeds@.len() - s,
    {
        let y = seeds[s];
        if !contains_id(&r, y) {
            assert(reach(iv, seeds@, y, 0, down)) by {
                assert(seeds@[s as int] == y);
            }
            let ghost rb = r@;
            r.push(y);
            assert forall|t: int| 0 <= t < s implies r@.contains(#[trigger] seeds@[t]) by {
                let w = choose|w: int| 0 <= w < rb.len() && rb[w] == seeds@[t];
                assert(r@[w] == rb[w]);
            }
            assert(r@[r@.len() - 1] == y);
        }
        s = s + 1;
    }
    assert forall|y: i64| #[trigger] seeds@.contains(y) implies r@.contains(y) by {
        let t = choose|t: int| 0 <= t < seeds@.len() && seeds@[t] == y;
        assert(r@.contains(seeds@[t]));
    }
    let mut done: usize = 0;
    while done < r.len()
        invariant
            iv == items_view(items@),
            visited@.len() == iv.len(),
            done <= r@.len(),
            r@.no_duplicates(),
            forall|k: int| 0 <= k < r@.len() ==> reachable_from(iv, seeds@, #[trigger] r@[k], down),
            forall|y: i64| #[trigger] seeds@.contains(y) ==> r@.contains(y),
            forall|j: int| 0 <= j < iv.len() && #[trigger] visited@[j] ==> forall|y: i64| step_of(iv[j], down).contains(y) ==> r@.contains(y),
            forall|k: int| 0 <= k < done ==> -1 <= last_index(iv, #[trigger] r@[k]) < iv.len() && (last_index(iv, r@[k]) == -1 || visited@[last_index(iv, r@[k])]),
        decreases count_false(visited@), r@.len() - done,
    {
        let x = r[done];
        proof { lemma_last_index_range(iv, x); }
        let ghost r0 = r@;
        let ghost v0 = visited@;
        match find_last(items, x) {
            Some(j) => {
                if !visited[j] {
                    proof { lemma_count_false_set(visited@, j as int); }
                    visited.set(j, true);
                    assert(reachable_from(iv, seeds@, r@[done as int], down));
                    let ghost n0: nat = choose|n: nat| reach(iv, seeds@, x, n, down);
                    let next = if down { &items[j].children } else { &items[j].parents };
                    assert(next@ == step_of(iv[j as int], down));
                    let mut q: usize = 0;
                    while q < next.len()
                        invariant
                            iv == items_view(items@),
                            j < iv.len(),
                            j as int == last_index(iv, x),
                            next@ == step_of(iv[j as int], down),
                            q <= next@.len(),
                            reach(iv, seeds@, x, n0, down),
                            r0.len() <= r@.len(),
                            forall|k: int| 0 <= k < r0.len() ==> r@[k] == r0[k],
                            r@.no_duplicates(),
                            forall|k: int| 0 <= k < r@.len() ==> reachable_from(iv, seeds@, #[trigger] r@[k], down),
                            forall|k: int| 0 <= k < q ==> r@.contains(#[trigger] next@[k]),
                        decreases next@.len() - q,
                    {
                        let y = next[q];
                        if !contains_id(&r, y) {
                            proof {
                                assert(links_of(iv, x, down).contains(y)) by {
                                    assert(links_of(iv, x, down)[q as int] == y);
                                }
                                assert(reach(iv, seeds@, y, n0 + 1, down));
                                assert(reachable_from(iv, seeds@, y, down));
                            }
                            let ghost rb = r@;
                            r.push(y);
                            assert forall|k: int| 0 <= k < q implies r@.contains(#[trigger] next@[k]) by {
                                let w = choose|w: int| 0 <= w < rb.len() && rb[w] == next@[k];
                                assert(r@[w] == rb[w]);
                            }
                            assert(r@[r@.len() - 1] == y);
                        }
                        q = q + 1;
                    }
                    assert forall|y: i64| step_of(iv[j as int], down).contains(y) implies r@.contains(y) by {
                        let k = choose|k: int| 0 <= k < next@.len() && next@[k] == y;
                        assert(r@.contains(next@[k]));
                    }
                    assert forall|t: int| 0 <= t < iv.len() && #[trigger] visited@[t] implies forall|y: i64|
                        step_of(iv[t], down).contains(y) ==> r@.contains(y) by {
                        if t != j {
                            assert(v0[t]);
                            assert forall|y: i64| step_of(iv[t], down).contains(y) implies r@.contains(y) by {
                                assert(r0.contains(y));
                                let w = choose|w: int| 0 <= w < r0.len() && r0[w] == y;
                                assert(r@[w] == r0[w]);
                            }
                        }
                    }
                }
            },
            None => {},
        }
        assert(forall|t: int| 0 <= t < iv.len() && v0[t] ==> visited@[t]);
        assert(r0.len() <= r@.len() && forall|k: int| 0 <= k < r0.len() ==> r@[k] == r0[k]);
        assert(last_index(iv, x) == -1 || visited@[last_index(iv, x)]);
        assert forall|y: i64| #[trigger] seeds@.contains(y) implies r@.contains(y) by {
            assert(r0.contains(y));
            let w = choose|w: int| 0 <= w < r0.len() && r0[w] == y;
            assert(r@[w] == r0[w]);
        }
        assert forall|k: int| 0 <= k < done + 1 implies -1 <= last_index(iv, #[trigger] r@[k]) < iv.len() && (
        last_index(iv, r@[k]) == -1 || visited@[last_index(iv, r@[k])]) by {
            assert(r@[k] == r0[k]);
            if k < done {
                assert(-1 <= last_index(iv, r0[k]) < iv.len());
                assert(last_index(iv, r0[k]) == -1 || v0[last_index(iv, r0[k])]);
            } else {
                assert(r0[k] == x);
            }
        }
        done = done + 1;
    }
    assert forall|k: int, y: i64| 0 <= k < r@.len() && #[trigger] links_of(iv, r@[k], down).contains(y) implies r@.contains(y) by {
        let j = last_index(iv, r@[k]);
        assert(j != -1);
        assert(visited@[j]);
        assert(step_of(iv[j], down).contains(y));
    }
    r
}

/// Every id reached from `id` along cached parents, each once: the parents
/// of `id`, their parents, and so on. A cycle in the cache cannot make this
/// loop, and an id with no item has no parents.
pub fn get_document_item_all_parents(items: &Vec<DocumentItem>, id: i64) -> (r: Vec<i64>)
    ensures
        r@.no_duplicates(),
        forall|k: int| 0 <= k < r@.len() ==> reachable_from(
            items_view(items@),
            links_of(items_view(items@), id, false),
            #[trigger] r@[k],
            false,
        ),
        forall|y: i64| #[trigger] links_of(items_view(items@), id, false).contains(y) ==> r@.contains(y),
        forall|k: int, y: i64| 0 <= k < r@.len() && #[trigger] links_of(items_view(items@), r@[k], false).contains(y) ==> r@.contains(y),
{
    let ghost iv = items_view(items@);
    proof { lemma_last_index_range(iv, id); }
    let seeds = match find_last(items, id) {
        Some(j) => copy_ids(&items[j].parents),
        None => Vec::new(),
    };
    assert(seeds@ == links_of(iv, id, false));
    walk(items, &seeds, false)
}

/// Whatever is reachable from the seeds is among the walk's result.
proof fn lemma_reach_in(items: Seq<DocumentItemView>, seeds: Seq<i64>, r: Seq<i64>, y: i64, n: nat, down: bool)
    requires
        forall|z: i64| #[trigger] seeds.contains(z) ==> r.contains(z),
        forall|k: int, z: i64| 0 <= k < r.len() && #[trigger] links_of(items, r[k], down).contains(z) ==> r.contains(z),
        reach(items, seeds, y, n, down),
    ensures
        r.contains(y),
    decreases n,
{
    if !seeds.contains(y) {
        let z = choose|z: i64| reach(items, seeds, z, (n - 1) as nat, down) && #[trigger] links_of(items, z, down).contains(y);
        lemma_reach_in(items, seeds, r, z, (n - 1) as nat, down);
        let k = choose|k: int| 0 <= k < r.len() && r[k] == z;
        assert(links_of(items, r[k], down).contains(y));
    }
}

/// How many distinct items lie below a document: its children, their
/// children, and so on, each counted once.
pub fn get_document_children_count(items: &Vec<DocumentItem>, document: &Document) -> (r: usize)
    ensures
        r as int == reach_set(items_view(items@), document.children@, true).len(),
        reach_set(items_view(items@), document.children@, true).finite(),
{
    let ghost iv = items_view(items@);
    let found = walk(items, &document.children, true);
    proof {
        let rs = reach_set(iv, document.children@, true);
        assert forall|y: i64| rs.contains(y) <==> found@.to_set().contains(y) by {
            if rs.contains(y) {
                let n = choose|n: nat| reach(iv, document.children@, y, n, true);
                lemma_reach_in(iv, document.children@, found@, y, n, true);
            }
            if found@.to_set().contains(y) {
                let k = choose|k: int| 0 <= k < found@.len() && found@[k] == y;
                assert(reachable_from(iv, document.children@, found@[k], true));
            }
        }
        assert(rs =~= found@.to_set());
        found@.unique_seq_to_set();
    }
    found.len()
}

} // verus!
