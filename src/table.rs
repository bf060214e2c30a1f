use vstd::prelude::*;
use crate::entity::Row;

verus! {

broadcast use vstd::seq_lib::group_to_multiset_ensures;

/// The views of a sequence of rows.
pub open spec fn views<T: Row>(s: Seq<T>) -> Seq<T::V> {
    s.map_values(|x: T| x@)
}

/// Some row of `s` has id `id`.
pub open spec fn has_key<T: Row>(s: Seq<T::V>, id: i64) -> bool {
    exists|i: int| 0 <= i < s.len() && T::vkey(s[i]) == id
}

/// No two rows of `s` share an id.
pub open spec fn keys_unique<T: Row>(s: Seq<T::V>) -> bool {
    forall|i: int, j: int|
        0 <= i < s.len() && 0 <= j < s.len() && i != j ==> T::vkey(s[i]) != T::vkey(s[j])
}

/// Every id of `s` is positive and below `next`.
pub open spec fn keys_below<T: Row>(s: Seq<T::V>, next: i64) -> bool {
    forall|i: int| 0 <= i < s.len() ==> 0 < #[trigger] T::vkey(s[i]) < next
}

/// The position of the row with id `id`.
pub open spec fn index_of_key<T: Row>(s: Seq<T::V>, id: i64) -> int {
    choose|i: int| 0 <= i < s.len() && T::vkey(s[i]) == id
}

/// The row with id `id`, if any.
pub open spec fn row_with<T: Row>(s: Seq<T::V>, id: i64) -> Option<T::V> {
    if has_key::<T>(s, id) {
        Some(s[index_of_key::<T>(s, id)])
    } else {
        None
    }
}

/// The rows that are not soft-deleted, in table order.
pub open spec fn live<T: Row>(s: Seq<T::V>) -> Seq<T::V>
    decreases s.len(),
{
    if s.len() == 0 {
        Seq::empty()
    } else {
        let rest = live::<T>(s.drop_last());
        if T::vgone(s.last()) {
            rest
        } else {
            rest.push(s.last())
        }
    }
}

/// Latest write first.
pub open spec fn sorted_desc<T: Row>(s: Seq<T::V>) -> bool {
    forall|i: int, j: int| 0 <= i < j < s.len() ==> T::vstamp(s[i]) >= T::vstamp(s[j])
}

/// Under unique ids, the row found at `i` is the one `row_with` names.
pub proof fn lemma_row_with_at<T: Row>(s: Seq<T::V>, i: int)
    requires
        keys_unique::<T>(s),
        0 <= i < s.len(),
    ensures
        row_with::<T>(s, T::vkey(s[i])) == Some(s[i]),
        index_of_key::<T>(s, T::vkey(s[i])) == i,
{
    let id = T::vkey(s[i]);
    assert(has_key::<T>(s, id));
    let j = index_of_key::<T>(s, id);
    assert(T::vkey(s[j]) == id);
}

/// A live row is not soft-deleted.
pub proof fn lemma_live_not_gone<T: Row>(s: Seq<T::V>, v: T::V)
    requires
        live::<T>(s).contains(v),
    ensures
        !T::vgone(v),
        s.contains(v),
    decreases s.len(),
{
    if s.len() > 0 {
        let rest = live::<T>(s.drop_last());
        if !T::vgone(s.last()) && v == s.last() {
            assert(s[s.len() - 1] == v);
        } else {
            if !T::vgone(s.last()) {
                let k = choose|k: int| 0 <= k < live::<T>(s).len() && live::<T>(s)[k] == v;
                assert(k < rest.len());
                assert(rest[k] == v);
            }
            lemma_live_not_gone::<T>(s.drop_last(), v);
            let k = choose|k: int| 0 <= k < s.drop_last().len() && s.drop_last()[k] == v;
            assert(s[k] == v);
        }
    }
}

/// Tables whose rows keep their ids keep the id invariants.
pub proof fn lemma_keys_preserved<T: Row>(a: Seq<T::V>, b: Seq<T::V>, next: i64)
    requires
        a.len() == b.len(),
        forall|k: int| 0 <= k < a.len() ==> T::vkey(#[trigger] b[k]) == T::vkey(a[k]),
        keys_unique::<T>(a),
        keys_below::<T>(a, next),
    ensures
        keys_unique::<T>(b),
        keys_below::<T>(b, next),
{
    assert forall|i: int, j: int| 0 <= i < b.len() && 0 <= j < b.len() && i != j implies T::vkey(b[i]) != T::vkey(b[j]) by {
        assert(T::vkey(a[i]) != T::vkey(a[j]));
    }
    assert forall|i: int| 0 <= i < b.len() implies 0 < #[trigger] T::vkey(b[i]) < next by {
        assert(0 < T::vkey(a[i]) < next);
    }
}

/// A table that gains a row with a fresh id keeps the id invariants.
pub proof fn lemma_keys_push<T: Row>(a: Seq<T::V>, v: T::V, next: i64, new_next: i64)
    requires
        keys_unique::<T>(a),
        keys_below::<T>(a, next),
        0 < next <= T::vkey(v) < new_next,
    ensures
        keys_unique::<T>(a.push(v)),
        keys_below::<T>(a.push(v), new_next),
{
    let b = a.push(v);
    assert forall|i: int, j: int| 0 <= i < b.len() && 0 <= j < b.len() && i != j implies T::vkey(b[i]) != T::vkey(b[j]) by {
        if i < a.len() {
            assert(T::vkey(b[i]) < next);
        }
        if j < a.len() {
            assert(T::vkey(b[j]) < next);
        }
    }
    assert forall|i: int| 0 <= i < b.len() implies 0 < #[trigger] T::vkey(b[i]) < new_next by {
        if i < a.len() {
            assert(T::vkey(b[i]) == T::vkey(a[i]));
        }
    }
}

/// A table that loses a row keeps the id invariants.
pub proof fn lemma_keys_remove<T: Row>(a: Seq<T::V>, i: int, next: i64)
    requires
        keys_unique::<T>(a),
        keys_below::<T>(a, next),
        0 <= i < a.len(),
    ensures
        keys_unique::<T>(a.remove(i)),
        keys_below::<T>(a.remove(i), next),
{
    let b = a.remove(i);
    assert forall|x: int, y: int| 0 <= x < b.len() && 0 <= y < b.len() && x != y implies T::vkey(b[x]) != T::vkey(b[y]) by {
        let xa = if x < i { x } else { x + 1 };
        let ya = if y < i { y } else { y + 1 };
        assert(b[x] == a[xa]);
        assert(b[y] == a[ya]);
    }
    assert forall|x: int| 0 <= x < b.len() implies 0 < #[trigger] T::vkey(b[x]) < next by {
        let xa = if x < i { x } else { x + 1 };
        assert(b[x] == a[xa]);
    }
}

/// The position of the row with id `id`.
pub fn find_index<T: Row>(rows: &Vec<T>, id: i64) -> (r: Option<usize>)
    ensures
        match r {
            Some(i) => i < rows@.len() && T::vkey(rows@[i as int]@) == id,
            None => !has_key::<T>(views(rows@), id),
        },
{
    let mut i: usize = 0;
    while i < rows.len()
        invariant
            i <= rows@.len(),
            forall|k: int| 0 <= k < i ==> T::vkey(rows@[k]@) != id,
        decreases rows@.len() - i,
    {
        if rows[i].row_id() == id {
            return Some(i);
        }
        i = i + 1;
    }
    None
}

/// The rows that are not soft-deleted, in table order.
pub fn live_rows<T: Row>(rows: &Vec<T>) -> (r: Vec<T>)
    ensures
        views(r@) == live::<T>(views(rows@)),
{
    let ghost all = views(rows@);
    let mut r: Vec<T> = Vec::new();
    let mut i: usize = 0;
    while i < rows.len()
        invariant
            i <= rows@.len(),
            all == views(rows@),
            views(r@) == live::<T>(all.take(i as int)),
        decreases rows@.len() - i,
    {
        assert(all.take(i + 1).drop_last() =~= all.take(i as int));
        assert(all.take(i + 1).last() == rows@[i as int]@);
        if !rows[i].row_gone() {
            let ghost before = views(r@);
            r.push(rows[i].row_copy());
            assert(views(r@) =~= before.push(rows@[i as int]@));
        }
        i = i + 1;
    }
    assert(all.take(rows@.len() as int) =~= all);
    r
}

/// The rows that are not soft-deleted, latest write first.
pub fn list_live<T: Row>(rows: &Vec<T>) -> (r: Vec<T>)
    ensures
        views(r@).to_multiset() == live::<T>(views(rows@)).to_multiset(),
        sorted_desc::<T>(views(r@)),
{
    let ghost all = views(rows@);
    let mut r: Vec<T> = Vec::new();
    let mut i: usize = 0;
    while i < rows.len()
        invariant
            i <= rows@.len(),
            all == views(rows@),
            views(r@).to_multiset() == live::<T>(all.take(i as int)).to_multiset(),
            sorted_desc::<T>(views(r@)),
        decreases rows@.len() - i,
    {
        assert(all.take(i + 1).drop_last() =~= all.take(i as int));
        assert(all.take(i + 1).last() == rows@[i as int]@);
        if !rows[i].row_gone() {
            let stamp = rows[i].row_stamp();
            let mut p: usize = 0;
            while p < r.len() && r[p].row_stamp() >= stamp
                invariant
                    p <= r@.len(),
                    forall|m: int| 0 <= m < p ==> T::vstamp(#[trigger] r@[m]@) >= stamp,
                decreases r@.len() - p,
            {
                p = p + 1;
            }
            let ghost before = views(r@);
            let item = rows[i].row_copy();
            r.insert(p, item);
            assert(views(r@) =~= before.insert(p as int, rows@[i as int]@));
            assert(sorted_desc::<T>(views(r@))) by {
                assert forall|a: int, b: int| 0 <= a < b < views(r@).len() implies T::vstamp(
                    views(r@)[a],
                ) >= T::vstamp(views(r@)[b]) by {
                    if b < p {
                    } else if b == p {
                        assert(views(r@)[a] == before[a]);
                    } else if a == p {
                        assert(views(r@)[b] == before[b - 1]);
                        assert(T::vstamp(before[p as int]) < stamp);
                    } else if a < p {
                        assert(views(r@)[b] == before[b - 1]);
                        assert(views(r@)[a] == before[a]);
                    } else {
                        assert(views(r@)[b] == before[b - 1]);
                        assert(views(r@)[a] == before[a - 1]);
                    }
                }
            }
        }
        i = i + 1;
    }
    assert(all.take(rows@.len() as int) =~= all);
    r
}

} // verus!
