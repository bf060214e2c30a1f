use vstd::prelude::*;
use crate::entity::Row;
use crate::records::{History, HistoryView, Query};
use crate::table::{list_live, live, sorted_desc, views};

verus! {

broadcast use vstd::seq_lib::group_to_multiset_ensures;

/// The snapshots of the entity `content_type` / `content_id`, in log order.
pub open spec fn snapshots_of(s: Seq<HistoryView>, content_type: Seq<char>, content_id: i64) -> Seq<HistoryView> {
    s.filter(|h: HistoryView| h.content_type == content_type && h.content_id == content_id)
}

/// Where page `number` of size `size` starts: `size * (number - 1)`, at
/// least 0 and at most `len`.
pub open spec fn page_start(len: int, size: int, number: int) -> int {
    let off = size * (number - 1);
    if off < 0 {
        0
    } else if off > len {
        len
    } else {
        off
    }
}

/// Where that page ends: `size` entries on, or the end; a negative size
/// sets no bound.
pub open spec fn page_end(len: int, size: int, number: int) -> int {
    let start = page_start(len, size, number);
    if size < 0 || start + size > len {
        len
    } else {
        start + size
    }
}

/// Page `number` of size `size` of `l`.
pub open spec fn page(l: Seq<HistoryView>, size: int, number: int) -> Seq<HistoryView> {
    l.subrange(page_start(l.len() as int, size, number), page_end(l.len() as int, size, number))
}

proof fn lemma_live_all(s: Seq<HistoryView>)
    ensures
        live::<History>(s) == s,
    decreases s.len(),
{
    if s.len() > 0 {
        lemma_live_all(s.drop_last());
        assert(s.drop_last().push(s.last()) =~= s);
    }
}

/// One page of the snapshots of one entity, latest first. The page is cut
/// as SQL's `LIMIT size OFFSET size * (number - 1)` cuts it: a negative
/// offset counts as none and a negative size as no limit.
pub fn get_history_list(history: &Vec<History>, query: &Query) -> (r: Vec<History>)
    ensures
        exists|l: Seq<HistoryView>|
            #![trigger sorted_desc::<History>(l)]
            l.to_multiset() == snapshots_of(views(history@), query.content_type@, query.content_id).to_multiset()
                && sorted_desc::<History>(l) && views(r@) == page(l, query.page_size as int, query.page_number as int),
{
    let ghost all = views(history@);
    let ghost pred = |h: HistoryView| h.content_type == query.content_type@ && h.content_id == query.content_id;
    let mut picked: Vec<History> = Vec::new();
    let mut i: usize = 0;
    while i < history.len()
        invariant
            i <= all.len(),
            all == views(history@),
            pred == (|h: HistoryView| h.content_type == query.content_type@ && h.content_id == query.content_id),
            views(picked@) == all.take(i as int).filter(pred),
        decreases all.len() - i,
    {
        assert(all.take(i + 1).drop_last() =~= all.take(i as int));
        reveal(Seq::filter);
        let ghost before = views(picked@);
        if history[i].content_type == query.content_type && history[i].content_id == query.content_id {
            picked.push(history[i].duplicate());
            assert(views(picked@) =~= before.push(all[i as int]));
        }
        i = i + 1;
    }
    assert(all.take(all.len() as int) =~= all);
    let sorted = list_live(&picked);
    proof { lemma_live_all(views(picked@)); }
    let ghost l = views(sorted@);
    let len = sorted.len();
    let a: i128 = query.page_size as i128;
    let b: i128 = (query.page_number as i128) - 1;
    assert(-0x8000_0000_0000_0000 <= a <= 0x7fff_ffff_ffff_ffff);
    assert(-0x8000_0000_0000_0001 <= b <= 0x7fff_ffff_ffff_fffe);
    assert(-0x7fff_ffff_ffff_ffff_ffff_ffff_ffff_ffff <= a * b <= 0x7fff_ffff_ffff_ffff_ffff_ffff_ffff_ffff) by (nonlinear_arith)
        requires
            -0x8000_0000_0000_0000 <= a <= 0x7fff_ffff_ffff_ffff,
            -0x8000_0000_0000_0001 <= b <= 0x7fff_ffff_ffff_fffe,
    {
        assert(-0x8000_0000_0000_0001 * 0x8000_0000_0000_0000 <= a * b <= 0x8000_0000_0000_0001 * 0x8000_0000_0000_0000)
            by (nonlinear_arith)
            requires
                -0x8000_0000_0000_0000 <= a <= 0x7fff_ffff_ffff_ffff,
                -0x8000_0000_0000_0001 <= b <= 0x7fff_ffff_ffff_fffe,
        {
        }
    }
    let off: i128 = a * b;
    let start: usize = if off < 0 {
        0
    } else if off > len as i128 {
        len
    } else {
        off as usize
    };
    let end: usize = if query.page_size < 0 || (start as i128) + (query.page_size as i128) > len as i128 {
        len
    } else {
        start + query.page_size as usize
    };
    assert(start as int == page_start(len as int, query.page_size as int, query.page_number as int));
    assert(end as int == page_end(len as int, query.page_size as int, query.page_number as int));
    let mut out: Vec<History> = Vec::new();
    let mut k: usize = start;
    while k < end
        invariant
            start <= k <= end <= l.len(),
            l == views(sorted@),
            views(out@) == l.subrange(start as int, k as int),
        decreases end - k,
    {
        let ghost before = views(out@);
        let item = sorted[k].duplicate();
        assert(item@ == l[k as int]);
        out.push(item);
        assert(views(out@) =~= before.push(l[k as int]));
        assert(l.subrange(start as int, k + 1) =~= l.subrange(start as int, k as int).push(l[k as int]));
        k = k + 1;
    }
    assert(views(out@) == page(l, query.page_size as int, query.page_number as int));
    out
}

} // verus!
