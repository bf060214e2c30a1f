use vstd::prelude::*;
use crate::entity::{Operation, OperationView};
use crate::store::Store;
use crate::table::views;

verus! {

broadcast use vstd::seq_lib::group_to_multiset_ensures;

/// Milliseconds in a day.
pub const MS_PER_DAY: i64 = 86400000;

/// Leap years among years 1 through `n` (for `n >= 0`), proleptic Gregorian.
pub open spec fn leaps_through(n: int) -> int {
    n / 4 - n / 100 + n / 400
}

/// Milliseconds from 1970-01-01 00:00 UTC to the start of year `y`.
pub open spec fn year_start_ms(y: int) -> int {
    ((y - 1970) * 365 + leaps_through(y - 1) - leaps_through(1969)) * MS_PER_DAY
}

/// The start of year 1 (proleptic Gregorian, UTC) in milliseconds since
/// the epoch: 719162 days before 1970-01-01.
pub const EARLIEST_MS: i64 = -62135596800000;

/// The day (since 1970-01-01, UTC; negative before it) a time falls on.
pub open spec fn day_of(t: i64) -> int {
    t as int / MS_PER_DAY as int
}

/// Earlier in the log: by time, then by id.
pub open spec fn op_before(a: OperationView, b: OperationView) -> bool {
    a.operation_time < b.operation_time || (a.operation_time == b.operation_time && a.id <= b.id)
}

/// The same action target on the same day.
pub open spec fn same_slot(a: OperationView, b: OperationView) -> bool {
    &&& a.operation_content_type == b.operation_content_type
    &&& a.operation_id == b.operation_id
    &&& day_of(a.operation_time) == day_of(b.operation_time)
}

/// The log rows with `start <= time < end`, in log order.
pub open spec fn in_range(s: Seq<OperationView>, start: int, end: int) -> Seq<OperationView>
    decreases s.len(),
{
    if s.len() == 0 {
        Seq::empty()
    } else {
        let rest = in_range(s.drop_last(), start, end);
        if start <= s.last().operation_time < end {
            rest.push(s.last())
        } else {
            rest
        }
    }
}

/// The log rows of year `year`; none for a year outside 1 to 9998.
pub open spec fn year_ops(s: Seq<OperationView>, year: i64) -> Seq<OperationView> {
    if 1 <= year <= 9998 {
        in_range(s, year_start_ms(year as int), year_start_ms(year + 1))
    } else {
        Seq::empty()
    }
}

/// The calendar date (`YYYY-MM-DD`, UTC) chrono writes for a time in
/// milliseconds, if it can represent that time.
pub uninterp spec fn utc_date_text(ms: i64) -> Option<Seq<char>>;

/// The label of a day group: the date of a time in it, or empty.
pub open spec fn date_label(ms: i64) -> Seq<char> {
    match utc_date_text(ms) {
        Some(s) => s,
        None => Seq::empty(),
    }
}

/// Relies on chrono's DateTime::<Utc>::from_timestamp_millis and its
/// `%Y-%m-%d` format: the text depends on the time alone.
#[verifier::external_body]
fn utc_date(ms: i64) -> (r: Option<String>)
    ensures
        match r {
            Some(s) => utc_date_text(ms) == Some(s@),
            None => utc_date_text(ms) is None,
        },
{
    match chrono::DateTime::<chrono::Utc>::from_timestamp_millis(ms) {
        Some(d) => Some(d.format("%Y-%m-%d").to_string()),
        None => None,
    }
}

/// The operations of one day.
pub struct OperationRecord {
    pub time: String,
    pub operation_list: Vec<Operation>,
}

/// The start of year `year` in milliseconds since the epoch.
pub fn year_start(year: i64) -> (r: i64)
    requires
        1 <= year <= 9999,
    ensures
        r == year_start_ms(year as int),
        r >= EARLIEST_MS,
{
    let n = year - 1;
    let m: i64 = 1969;
    let days = (year - 1970) * 365 + (n / 4 - n / 100 + n / 400) - (m / 4 - m / 100 + m / 400);
    assert(-719162 <= days <= 8100 * 366);
    days * MS_PER_DAY
}

/// The log rows with `start <= time < end`, in log order.
fn ops_in_range(ops: &Vec<Operation>, start: i64, end: i64) -> (r: Vec<Operation>)
    ensures
        views(r@) == in_range(views(ops@), start as int, end as int),
{
    let ghost all = views(ops@);
    let mut r: Vec<Operation> = Vec::new();
    let mut i: usize = 0;
    while i < ops.len()
        invariant
            i <= ops@.len(),
            all == views(ops@),
            views(r@) == in_range(all.take(i as int), start as int, end as int),
        decreases ops@.len() - i,
    {
        assert(all.take(i + 1).drop_last() =~= all.take(i as int));
        assert(all.take(i + 1).last() == ops@[i as int]@);
        if start <= ops[i].operation_time && ops[i].operation_time < end {
            let ghost before = views(r@);
            r.push(ops[i].duplicate());
            assert(views(r@) =~= before.push(ops@[i as int]@));
        }
        i = i + 1;
    }
    assert(all.take(ops@.len() as int) =~= all);
    r
}

proof fn lemma_day_shift(t: int)
    ensures
        (t + 719162 * MS_PER_DAY) / (MS_PER_DAY as int) == t / (MS_PER_DAY as int) + 719162,
{
    let m = MS_PER_DAY as int;
    vstd::arithmetic::div_mod::lemma_fundamental_div_mod(t, m);
    vstd::arithmetic::div_mod::lemma_mod_bound(t, m);
    let q = t / m;
    let r = t % m;
    assert(t + 719162 * m == m * (q + 719162) + r) by (nonlinear_arith)
        requires
            t == m * q + r,
    {
    }
    vstd::arithmetic::div_mod::lemma_div_multiples_vanish_fancy(q + 719162, r, m);
}

/// The day a time from year 1 on falls on.
fn day_index(t: i64) -> (d: i64)
    requires
        t >= EARLIEST_MS,
    ensures
        d as int == day_of(t),
{
    proof { lemma_day_shift(t as int); }
    let u: i128 = t as i128 + 62135596800000;
    assert(u as int == t as int + 719162 * MS_PER_DAY);
    let q: i128 = u / (MS_PER_DAY as i128);
    assert(q as int == day_of(t) + 719162);
    (q - 719162) as i64
}

/// Earlier in the log: by time, then by id.
fn before_exec(a: &Operation, b: &Operation) -> (r: bool)
    ensures
        r == op_before(a@, b@),
{
    a.operation_time < b.operation_time || (a.operation_time == b.operation_time && a.id <= b.id)
}

/// The rows ordered by time, then id.
fn sort_ops(v: &Vec<Operation>) -> (r: Vec<Operation>)
    ensures
        views(r@).to_multiset() == views(v@).to_multiset(),
        forall|a: int, b: int| 0 <= a < b < r@.len() ==> op_before(r@[a]@, r@[b]@),
{
    let ghost all = views(v@);
    let mut r: Vec<Operation> = Vec::new();
    let mut i: usize = 0;
    while i < v.len()
        invariant
            i <= v@.len(),
            all == views(v@),
            views(r@).to_multiset() == all.take(i as int).to_multiset(),
            forall|a: int, b: int| 0 <= a < b < r@.len() ==> op_before(r@[a]@, r@[b]@),
        decreases v@.len() - i,
    {
        assert(all.take(i + 1) =~= all.take(i as int).push(v@[i as int]@));
        let mut p: usize = 0;
        while p < r.len() && before_exec(&r[p], &v[i])
            invariant
                i < v@.len(),
                p <= r@.len(),
                forall|m: int| 0 <= m < p ==> op_before(#[trigger] r@[m]@, v@[i as int]@),
            decreases r@.len() - p,
        {
            p = p + 1;
        }
        let ghost before = views(r@);
        assert(forall|a: int, b: int| 0 <= a < b < before.len() ==> op_before(before[a], before[b]));
        assert(p < before.len() ==> !op_before(before[p as int], v@[i as int]@));
        assert(forall|m: int| 0 <= m < p ==> op_before(before[m], v@[i as int]@));
        let x = v[i].duplicate();
        r.insert(p, x);
        assert(views(r@) =~= before.insert(p as int, v@[i as int]@));
        let ghost nv = views(r@);
        assert forall|a: int, b: int| 0 <= a < b < nv.len() implies op_before(nv[a], nv[b]) by {
            let x = v@[i as int]@;
            if b < p {
                assert(nv[a] == before[a] && nv[b] == before[b]);
            } else if b == p {
                assert(nv[a] == before[a] && nv[b] == x);
            } else if a == p {
                assert(nv[a] == x && nv[b] == before[b - 1]);
                assert(!op_before(before[p as int], x));
                if b - 1 > p {
                    assert(op_before(before[p as int], before[b - 1]));
                }
            } else if a < p {
                assert(nv[a] == before[a] && nv[b] == before[b - 1]);
            } else {
                assert(nv[a] == before[a - 1] && nv[b] == before[b - 1]);
            }
        }
        assert forall|a: int, b: int| 0 <= a < b < r@.len() implies op_before(r@[a]@, r@[b]@) by {
            assert(r@[a]@ == nv[a] && r@[b]@ == nv[b]);
        }
        i = i + 1;
    }
    assert(all.take(v@.len() as int) =~= all);
    r
}

/// No later row of `s` shares the slot of the row at `x`.
#[verifier::opaque]
pub open spec fn kept(s: Seq<OperationView>, x: int) -> bool {
    forall|y: int| x < y < s.len() ==> !same_slot(#[trigger] s[y], s[x])
}

/// A row of the range lies in it.
proof fn lemma_in_range_bounds(s: Seq<OperationView>, start: int, end: int, o: OperationView)
    requires
        in_range(s, start, end).contains(o),
    ensures
        start <= o.operation_time < end,
    decreases s.len(),
{
    if s.len() > 0 {
        let rest = in_range(s.drop_last(), start, end);
        if start <= s.last().operation_time < end && o == s.last() {
        } else {
            if start <= s.last().operation_time < end {
                let k = choose|k: int| 0 <= k < in_range(s, start, end).len() && in_range(s, start, end)[k] == o;
                assert(rest[k] == o);
            }
            lemma_in_range_bounds(s.drop_last(), start, end, o);
        }
    }
}

/// Among `s`, the row at `q` shares its slot with some row at or after it
/// that no later row shares.
proof fn lemma_last_of_slot(s: Seq<OperationView>, q: int)
    requires
        0 <= q < s.len(),
    ensures
        exists|p: int| q <= p < s.len() && same_slot(s[q], s[p]) && kept(s, p),
    decreases s.len() - q,
{
    reveal(kept);
    if exists|x: int| q < x < s.len() && same_slot(s[x], s[q]) {
        let x = choose|x: int| q < x < s.len() && same_slot(s[x], s[q]);
        lemma_last_of_slot(s, x);
        let p = choose|p: int| x <= p < s.len() && same_slot(s[x], s[p]) && kept(s, p);
        assert(same_slot(s[q], s[p]));
        assert(q <= p < s.len() && same_slot(s[q], s[p]) && kept(s, p));
    } else {
        assert forall|x: int| q < x < s.len() implies !same_slot(#[trigger] s[x], s[q]) by {}
        assert(kept(s, q));
        assert(same_slot(s[q], s[q]));
    }
}

/// Rows of `s` are in log order.
pub open spec fn sorted_ops(s: Seq<OperationView>) -> bool {
    forall|a: int, b: int| 0 <= a < b < s.len() ==> op_before(s[a], s[b])
}

/// The day groups built from the first `p` rows of `sv`: each non-empty and
/// labelled by its date, every row one of the kept rows of `sv` before `p`
/// and every such row in some group, each group one day, the days rising,
/// and each group in log order with distinct targets.
#[verifier::opaque]
spec fn groups_inv(gs: Seq<OperationRecord>, sv: Seq<OperationView>, p: int) -> bool {
    &&& forall|g: int| 0 <= g < gs.len() ==> (#[trigger] gs[g]).operation_list@.len() > 0
    &&& forall|g: int| 0 <= g < gs.len() ==> (#[trigger] gs[g]).time@ == date_label(gs[g].operation_list@[0].operation_time)
    &&& forall|g: int, k: int| 0 <= g < gs.len() && 0 <= k < gs[g].operation_list@.len() ==> exists|x: int|
        0 <= x < p && sv[x] == (#[trigger] gs[g].operation_list@[k])@ && kept(sv, x)
    &&& forall|g: int, k: int| 0 <= g < gs.len() && 0 <= k < gs[g].operation_list@.len() ==> day_of(
        (#[trigger] gs[g].operation_list@[k]).operation_time,
    ) == day_of(gs[g].operation_list@[0].operation_time)
    &&& forall|g: int, h: int| 0 <= g < h < gs.len() ==> day_of((#[trigger] gs[g]).operation_list@[0].operation_time) < day_of(
        (#[trigger] gs[h]).operation_list@[0].operation_time,
    )
    &&& forall|g: int, k: int, l: int| 0 <= g < gs.len() && 0 <= k < l < gs[g].operation_list@.len() ==> op_before(
        (#[trigger] gs[g].operation_list@[k])@,
        (#[trigger] gs[g].operation_list@[l])@,
    ) && !same_slot(gs[g].operation_list@[k]@, gs[g].operation_list@[l]@)
    &&& forall|x: int| #[trigger] row_index(x) && 0 <= x < p && kept(sv, x) ==> exists|g: int, k: int|
        0 <= g < gs.len() && 0 <= k < gs[g].operation_list@.len() && (#[trigger] gs[g].operation_list@[k])@ == sv[x]
}

/// Names a position of the sorted rows; only a trigger.
spec fn row_index(x: int) -> bool {
    true
}

/// Each group has a first row, and its time is one of `sv`'s.
proof fn lemma_group_first(gs: Seq<OperationRecord>, sv: Seq<OperationView>, p: int)
    requires
        groups_inv(gs, sv, p),
        p <= sv.len(),
        forall|x: int| 0 <= x < sv.len() ==> EARLIEST_MS <= (#[trigger] sv[x]).operation_time,
    ensures
        forall|g: int| 0 <= g < gs.len() ==> (#[trigger] gs[g]).operation_list@.len() > 0 && EARLIEST_MS <= gs[g].operation_list@[0].operation_time,
{
    reveal(groups_inv);
    assert forall|g: int| 0 <= g < gs.len() implies (#[trigger] gs[g]).operation_list@.len() > 0 && EARLIEST_MS <= gs[g].operation_list@[0].operation_time by {
        let x = choose|x: int| 0 <= x < p && sv[x] == (#[trigger] gs[g].operation_list@[0])@ && kept(sv, x);
    }
}

proof fn lemma_group_skip(gs: Seq<OperationRecord>, sv: Seq<OperationView>, p: int)
    requires
        0 <= p < sv.len(),
        groups_inv(gs, sv, p),
        !kept(sv, p),
    ensures
        groups_inv(gs, sv, p + 1),
{
    reveal(groups_inv);
    assert forall|x: int| #[trigger] row_index(x) && 0 <= x < p + 1 && kept(sv, x) implies exists|g: int, k: int|
        0 <= g < gs.len() && 0 <= k < gs[g].operation_list@.len() && (#[trigger] gs[g].operation_list@[k])@ == sv[x] by {
        assert(x < p);
    }
    assert forall|g: int, k: int| 0 <= g < gs.len() && 0 <= k < gs[g].operation_list@.len() implies exists|x: int|
        0 <= x < p + 1 && sv[x] == (#[trigger] gs[g].operation_list@[k])@ && kept(sv, x) by {
        let x = choose|x: int| 0 <= x < p && sv[x] == (#[trigger] gs[g].operation_list@[k])@ && kept(sv, x);
    }
}

proof fn lemma_group_step(gs: Seq<OperationRecord>, ns: Seq<OperationRecord>, sv: Seq<OperationView>, p: int, fresh: bool)
    requires
        0 <= p < sv.len(),
        groups_inv(gs, sv, p),
        kept(sv, p),
        sorted_ops(sv),
        forall|x: int| 0 <= x < sv.len() ==> EARLIEST_MS <= (#[trigger] sv[x]).operation_time,
        fresh == (gs.len() == 0 || day_of(gs.last().operation_list@[0].operation_time) != day_of(sv[p].operation_time)),
        fresh ==> ns.len() == gs.len() + 1 && (forall|g: int| 0 <= g < gs.len() ==> ns[g] == gs[g])
            && ns.last().operation_list@.len() == 1 && ns.last().operation_list@[0]@ == sv[p]
            && ns.last().time@ == date_label(sv[p].operation_time),
        !fresh ==> ns.len() == gs.len() && (forall|g: int| 0 <= g < gs.len() - 1 ==> ns[g] == gs[g])
            && ns.last().time == gs.last().time
            && ns.last().operation_list@.len() == gs.last().operation_list@.len() + 1
            && (forall|k: int| 0 <= k < gs.last().operation_list@.len() ==> ns.last().operation_list@[k] == gs.last().operation_list@[k])
            && ns.last().operation_list@.last()@ == sv[p],
    ensures
        groups_inv(ns, sv, p + 1),
{
    reveal(groups_inv);
    let cur = sv[p];
    let gl = ns.len() as int;
    let lastg = gl - 1;
    assert(ns[lastg].operation_list@.last()@ == cur);
    // what the groups held stays where it was
    assert forall|g: int, k: int| 0 <= g < gs.len() && 0 <= k < gs[g].operation_list@.len() implies
        (#[trigger] ns[g].operation_list@[k]) == gs[g].operation_list@[k] by {
        if g == lastg && !fresh {
        } else {
            assert(ns[g] == gs[g]);
        }
    }
    assert forall|g: int| 0 <= g < gs.len() implies (#[trigger] ns[g]).operation_list@[0] == gs[g].operation_list@[0] by {
        assert(ns[g].operation_list@[0] == gs[g].operation_list@[0]);
    }
    // every earlier row comes no later in the log than this one
    assert forall|g: int, k: int| 0 <= g < gs.len() && 0 <= k < gs[g].operation_list@.len() implies
        op_before((#[trigger] gs[g].operation_list@[k])@, cur) && !same_slot(gs[g].operation_list@[k]@, cur)
        && day_of(gs[g].operation_list@[k].operation_time) <= day_of(cur.operation_time) by {
        let x = choose|x: int| 0 <= x < p && sv[x] == (#[trigger] gs[g].operation_list@[k])@ && kept(sv, x);
        assert(op_before(sv[x], sv[p]));
        assert(!same_slot(sv[p], sv[x])) by {
            reveal(kept);
        }
        vstd::arithmetic::div_mod::lemma_div_is_ordered(sv[x].operation_time as int, cur.operation_time as int, MS_PER_DAY as int);
    }
    assert forall|g: int, k: int| 0 <= g < ns.len() && 0 <= k < ns[g].operation_list@.len() implies exists|x: int|
        0 <= x < p + 1 && sv[x] == (#[trigger] ns[g].operation_list@[k])@ && kept(sv, x) by {
        if g < gs.len() && k < gs[g].operation_list@.len() {
            assert(ns[g].operation_list@[k] == gs[g].operation_list@[k]);
            let x = choose|x: int| 0 <= x < p && sv[x] == (#[trigger] gs[g].operation_list@[k])@ && kept(sv, x);
        } else {
            assert(ns[g].operation_list@[k]@ == cur);
        }
    }
    assert forall|g: int, k: int| 0 <= g < ns.len() && 0 <= k < ns[g].operation_list@.len() implies day_of(
        (#[trigger] ns[g].operation_list@[k]).operation_time,
    ) == day_of(ns[g].operation_list@[0].operation_time) by {
        if g < gs.len() && k < gs[g].operation_list@.len() {
            assert(ns[g].operation_list@[k] == gs[g].operation_list@[k]);
        }
    }
    assert forall|g: int, h: int| 0 <= g < h < ns.len() implies day_of((#[trigger] ns[g]).operation_list@[0].operation_time) < day_of(
        (#[trigger] ns[h]).operation_list@[0].operation_time,
    ) by {
        if h >= gs.len() {
            let lg = gs.len() - 1;
            assert(day_of(gs[lg].operation_list@[0].operation_time) <= day_of(cur.operation_time));
            if g < lg {
                assert(day_of(gs[g].operation_list@[0].operation_time) < day_of(gs[lg].operation_list@[0].operation_time));
            }
        }
    }
    assert forall|g: int, k: int, l: int| 0 <= g < ns.len() && 0 <= k < l < ns[g].operation_list@.len() implies op_before(
        (#[trigger] ns[g].operation_list@[k])@,
        (#[trigger] ns[g].operation_list@[l])@,
    ) && !same_slot(ns[g].operation_list@[k]@, ns[g].operation_list@[l]@) by {
        if g < gs.len() && l < gs[g].operation_list@.len() {
            assert(ns[g].operation_list@[k] == gs[g].operation_list@[k]);
            assert(ns[g].operation_list@[l] == gs[g].operation_list@[l]);
        } else if g < gs.len() {
            assert(ns[g].operation_list@[k] == gs[g].operation_list@[k]);
            assert(ns[g].operation_list@[l]@ == cur);
        }
    }
    assert forall|x: int| #[trigger] row_index(x) && 0 <= x < p + 1 && kept(sv, x) implies exists|g: int, k: int|
        0 <= g < ns.len() && 0 <= k < ns[g].operation_list@.len() && (#[trigger] ns[g].operation_list@[k])@ == sv[x] by {
        if x < p {
            let (g, k) = choose|g: int, k: int| 0 <= g < gs.len() && 0 <= k < gs[g].operation_list@.len() && (#[trigger] gs[g].operation_list@[k])@ == sv[x];
            assert(ns[g].operation_list@[k] == gs[g].operation_list@[k]);
        } else {
            let k = ns[lastg].operation_list@.len() - 1;
            assert(ns[lastg].operation_list@[k]@ == cur);
        }
    }
    assert forall|g: int| 0 <= g < ns.len() implies (#[trigger] ns[g]).time@ == date_label(ns[g].operation_list@[0].operation_time) by {
        if g < gs.len() {
            assert(ns[g].operation_list@[0] == gs[g].operation_list@[0]);
            if g != lastg || fresh {
                assert(ns[g] == gs[g]);
            }
        }
    }
}

impl Store {
    /// The operation log of year `year`, day by day (UTC) in time order.
    /// Within a day each target (content type and id) appears once, as its
    /// last operation of that day; a day's operations come in time order,
    /// and each day is labelled with its date. A year outside 1 to 9998
    /// has none.
    #[verifier::spinoff_prover]
    #[verifier::rlimit(100)]
    pub fn get_operation_records_by_year(&self, year: i64) -> (r: Vec<OperationRecord>)
        ensures
            forall|g: int| 0 <= g < r@.len() ==> (#[trigger] r@[g]).operation_list@.len() > 0,
            forall|g: int| 0 <= g < r@.len() ==> (#[trigger] r@[g]).time@ == date_label(r@[g].operation_list@[0].operation_time),
            forall|g: int, k: int| 0 <= g < r@.len() && 0 <= k < r@[g].operation_list@.len() ==> year_ops(
                self@.operations,
                year,
            ).contains(#[trigger] r@[g].operation_list@[k]@) && day_of(r@[g].operation_list@[k].operation_time) == day_of(
                r@[g].operation_list@[0].operation_time,
            ),
            forall|g: int, h: int| 0 <= g < h < r@.len() ==> day_of((#[trigger] r@[g]).operation_list@[0].operation_time) < day_of(
                (#[trigger] r@[h]).operation_list@[0].operation_time,
            ),
            forall|g: int, k: int, l: int| 0 <= g < r@.len() && 0 <= k < l < r@[g].operation_list@.len() ==> op_before(
                (#[trigger] r@[g].operation_list@[k])@,
                (#[trigger] r@[g].operation_list@[l])@,
            ) && !same_slot(r@[g].operation_list@[k]@, r@[g].operation_list@[l]@),
            forall|o: OperationView| #[trigger] year_ops(self@.operations, year).contains(o) ==> exists|g: int, k: int|
                0 <= g < r@.len() && 0 <= k < r@[g].operation_list@.len() && same_slot(o, #[trigger] r@[g].operation_list@[k]@)
                    && op_before(o, r@[g].operation_list@[k]@),
    {
        let mut groups: Vec<OperationRecord> = Vec::new();
        if year < 1 || year > 9998 {
            return groups;
        }
        let start = year_start(year);
        let end = year_start(year + 1);
        let ghost ys = year_ops(self@.operations, year);
        let picked = ops_in_range(&self.operations, start, end);
        let s = sort_ops(&picked);
        let ghost sv = views(s@);
        assert forall|o: OperationView| ys.contains(o) implies sv.contains(o) by {
            assert(ys.to_multiset().count(o) > 0);
        }
        assert forall|p: int| 0 <= p < sv.len() implies ys.contains(#[trigger] sv[p]) by {
            assert(sv.to_multiset().count(sv[p]) > 0);
        }
        assert forall|p: int| 0 <= p < sv.len() implies start <= (#[trigger] sv[p]).operation_time by {
            lemma_in_range_bounds(views(self.operations@), start as int, end as int, sv[p]);
        }
        let mut p: usize = 0;
        proof { reveal(groups_inv); }
        while p < s.len()
            invariant
                p <= sv.len(),
                sv == views(s@),
                start >= EARLIEST_MS,
                sorted_ops(sv),
                forall|x: int| 0 <= x < sv.len() ==> ys.contains(#[trigger] sv[x]),
                forall|x: int| 0 <= x < sv.len() ==> start <= (#[trigger] sv[x]).operation_time,
                groups_inv(groups@, sv, p as int),
            decreases sv.len() - p,
        {
            let mut last = true;
            let mut q: usize = p + 1;
            while q < s.len()
                invariant
                    p < q <= sv.len(),
                    sv == views(s@),
                    start >= EARLIEST_MS,
                    forall|x: int| 0 <= x < sv.len() ==> start <= (#[trigger] sv[x]).operation_time,
                    last == forall|y: int| p < y < q ==> !same_slot(#[trigger] sv[y], sv[p as int]),
                decreases sv.len() - q,
            {
                assert(s@[q as int].operation_time == sv[q as int].operation_time);
                assert(s@[p as int].operation_time == sv[p as int].operation_time);
                let dq = day_index(s[q].operation_time);
                let dp = day_index(s[p].operation_time);
                assert(sv[q as int] == s@[q as int]@ && sv[p as int] == s@[p as int]@);
                assert(dq == day_of(sv[q as int].operation_time) && dp == day_of(sv[p as int].operation_time));
                if s[q].operation_content_type == s[p].operation_content_type && s[q].operation_id == s[p].operation_id
                    && dq == dp {
                    last = false;
                }
                assert(same_slot(sv[q as int], sv[p as int]) == (sv[q as int].operation_content_type == sv[p as int].operation_content_type
                    && sv[q as int].operation_id == sv[p as int].operation_id && dq == dp));
                q = q + 1;
            }
            proof { reveal(kept); }
            assert(last == kept(sv, p as int));
            let ghost gs = groups@;
            if last {
                let ghost cur = sv[p as int];
                let n = groups.len();
                let fresh = if n == 0 {
                    true
                } else {
                    proof { lemma_group_first(groups@, sv, p as int); }
                    assert(groups@[n - 1].operation_list@.len() > 0);
                    day_index(groups[n - 1].operation_list[0].operation_time) != day_index(s[p].operation_time)
                };
                if fresh {
                    let label = match utc_date(s[p].operation_time) {
                        Some(t) => t,
                        None => String::new(),
                    };
                    groups.push(OperationRecord { time: label, operation_list: vec![s[p].duplicate()] });
                } else {
                    groups[n - 1].operation_list.push(s[p].duplicate());
                }
                proof {
                    lemma_group_step(gs, groups@, sv, p as int, fresh);
                }
            } else {
                proof { lemma_group_skip(groups@, sv, p as int); }
            }
            p = p + 1;
        }
        proof {
            reveal(groups_inv);
            assert forall|o: OperationView| #[trigger] ys.contains(o) implies exists|g: int, k: int|
                0 <= g < groups@.len() && 0 <= k < groups@[g].operation_list@.len() && same_slot(o, #[trigger] groups@[g].operation_list@[k]@)
                    && op_before(o, groups@[g].operation_list@[k]@) by {
                let q = choose|q: int| 0 <= q < sv.len() && sv[q] == o;
                lemma_last_of_slot(sv, q);
                let x = choose|x: int| q <= x < sv.len() && same_slot(sv[q], sv[x]) && kept(sv, x);
                assert(row_index(x));
                let (g, k) = choose|g: int, k: int| 0 <= g < groups@.len() && 0 <= k < groups@[g].operation_list@.len() && (#[trigger] groups@[g].operation_list@[k])@ == sv[x];
                if q < x {
                    assert(op_before(sv[q], sv[x]));
                }
            }
            assert forall|g: int, k: int| 0 <= g < groups@.len() && 0 <= k < groups@[g].operation_list@.len() implies ys.contains(#[trigger] groups@[g].operation_list@[k]@) by {
                let x = choose|x: int| 0 <= x < p && sv[x] == (#[trigger] groups@[g].operation_list@[k])@ && kept(sv, x);
            }
        }
        groups
    }
}

} // verus!
