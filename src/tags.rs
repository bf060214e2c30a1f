use vstd::prelude::*;
use crate::entity::{Card, CardView, strs_view};
use crate::store::Store;
use crate::table::views;

verus! {

/// The lower-case form of a text, as `str::to_lowercase` gives it.
pub uninterp spec fn lower_of(s: Seq<char>) -> Seq<char>;

/// Relies on str::to_lowercase: the result depends on the characters alone.
#[verifier::external_body]
fn lowercase(s: &str) -> (r: String)
    ensures
        r@ == lower_of(s@),
{
    s.to_lowercase()
}

/// The cards that carry a tag with lower-case form `key`.
pub struct TagGroup {
    pub tag: String,
    pub cards: Vec<Card>,
}

/// How many entries of `keys` equal `key`.
pub open spec fn key_count(keys: Seq<Seq<char>>, key: Seq<char>) -> nat
    decreases keys.len(),
{
    if keys.len() == 0 {
        0
    } else {
        key_count(keys.drop_last(), key) + if keys.last() == key { 1nat } else { 0nat }
    }
}

/// The group of `key`: each card, in order, once per entry of its key list
/// (`keys[i]` for card `i`) that equals `key`.
pub open spec fn key_group(cards: Seq<CardView>, keys: Seq<Seq<Seq<char>>>, key: Seq<char>) -> Seq<CardView>
    decreases cards.len(),
{
    if cards.len() == 0 || keys.len() == 0 {
        Seq::empty()
    } else {
        key_group(cards.drop_last(), keys.drop_last(), key) + Seq::new(key_count(keys.last(), key), |_i: int| cards.last())
    }
}

/// Some key list holds `key`.
pub open spec fn key_used(keys: Seq<Seq<Seq<char>>>, key: Seq<char>) -> bool {
    exists|i: int, t: int| 0 <= i < keys.len() && 0 <= t < keys[i].len() && keys[i][t] == key
}

/// The lower-case forms of each card's tags.
pub open spec fn lowered(cards: Seq<CardView>) -> Seq<Seq<Seq<char>>> {
    cards.map_values(|c: CardView| c.tags.map_values(|t: Seq<char>| lower_of(t)))
}

/// The key lists' views.
pub open spec fn keys_view(keys: Seq<Vec<String>>) -> Seq<Seq<Seq<char>>> {
    keys.map_values(|v: Vec<String>| strs_view(v@))
}

proof fn lemma_key_count_zero(keys: Seq<Seq<char>>, key: Seq<char>)
    requires
        forall|t: int| 0 <= t < keys.len() ==> keys[t] != key,
    ensures
        key_count(keys, key) == 0,
    decreases keys.len(),
{
    if keys.len() > 0 {
        lemma_key_count_zero(keys.drop_last(), key);
    }
}

proof fn lemma_key_group_empty(cards: Seq<CardView>, keys: Seq<Seq<Seq<char>>>, key: Seq<char>)
    requires
        cards.len() == keys.len(),
        !key_used(keys, key),
    ensures
        key_group(cards, keys, key) == Seq::<CardView>::empty(),
    decreases cards.len(),
{
    if cards.len() > 0 {
        let last = keys.len() - 1;
        assert forall|t: int| 0 <= t < keys[last].len() implies keys[last][t] != key by {
            if keys[last][t] == key {
                assert(key_used(keys, key));
            }
        }
        lemma_key_count_zero(keys.last(), key);
        assert(!key_used(keys.drop_last(), key)) by {
            if key_used(keys.drop_last(), key) {
                let (i, t) = choose|i: int, t: int| 0 <= i < keys.drop_last().len() && 0 <= t < keys.drop_last()[i].len()
                    && keys.drop_last()[i][t] == key;
                assert(keys[i] == keys.drop_last()[i]);
            }
        }
        lemma_key_group_empty(cards.drop_last(), keys.drop_last(), key);
        assert(key_group(cards, keys, key) =~= Seq::<CardView>::empty());
    }
}

/// Groups cards by keys given per card (`keys[i]` for card `i`): a card is
/// listed once in a group per entry of its key list equal to the group's
/// key. Keys are distinct, each group's cards keep their order, every key
/// given has its group and no group lacks a key.
pub fn group_by_keys(cards: &Vec<Card>, keys: &Vec<Vec<String>>) -> (r: Vec<TagGroup>)
    requires
        keys@.len() == cards@.len(),
    ensures
        forall|g: int, h: int| 0 <= g < r@.len() && 0 <= h < r@.len() && g != h ==> r@[g].tag@ != r@[h].tag@,
        forall|g: int| 0 <= g < r@.len() ==> views((#[trigger] r@[g]).cards@) == key_group(views(cards@), keys_view(keys@), r@[g].tag@),
        forall|g: int| 0 <= g < r@.len() ==> key_used(keys_view(keys@), (#[trigger] r@[g]).tag@),
        forall|key: Seq<char>| key_used(keys_view(keys@), key) ==> exists|g: int| 0 <= g < r@.len() && (#[trigger] r@[g]).tag@ == key,
{
    let ghost cs = views(cards@);
    let ghost ks = keys_view(keys@);
    let mut groups: Vec<TagGroup> = Vec::new();
    let mut i: usize = 0;
    while i < cards.len()
        invariant
            i <= cs.len(),
            cs == views(cards@),
            ks == keys_view(keys@),
            ks.len() == cs.len(),
            forall|g: int, h: int| 0 <= g < groups@.len() && 0 <= h < groups@.len() && g != h ==> groups@[g].tag@ != groups@[h].tag@,
            forall|g: int| 0 <= g < groups@.len() ==> views((#[trigger] groups@[g]).cards@) == key_group(cs.take(i as int), ks.take(i as int), groups@[g].tag@),
            forall|g: int| 0 <= g < groups@.len() ==> key_used(ks.take(i as int), (#[trigger] groups@[g]).tag@),
            forall|key: Seq<char>| key_used(ks.take(i as int), key) ==> exists|g: int| 0 <= g < groups@.len() && (#[trigger] groups@[g]).tag@ == key,
        decreases cs.len() - i,
    {
        let ghost cur = cs[i as int];
        let ghost curk = ks[i as int];
        let ghost pre = cs.take(i as int);
        let ghost kpre = ks.take(i as int);
        let ghost upto = cs.take(i + 1);
        let ghost kupto = ks.take(i + 1);
        assert(upto.drop_last() =~= pre);
        assert(kupto.drop_last() =~= kpre);
        assert(upto.last() == cur);
        assert(kupto.last() == curk);
        let card = &cards[i];
        let ck = &keys[i];
        assert(curk == strs_view(ck@));
        let mut t: usize = 0;
        while t < ck.len()
            invariant
                t <= curk.len(),
                cur == card@,
                curk == strs_view(ck@),
                kpre.len() == pre.len(),
                forall|g: int, h: int| 0 <= g < groups@.len() && 0 <= h < groups@.len() && g != h ==> groups@[g].tag@ != groups@[h].tag@,
                forall|g: int| 0 <= g < groups@.len() ==> views((#[trigger] groups@[g]).cards@) == key_group(pre, kpre, groups@[g].tag@)
                    + Seq::new(key_count(curk.take(t as int), groups@[g].tag@), |_i: int| cur),
                forall|g: int| 0 <= g < groups@.len() ==> key_used(kpre, (#[trigger] groups@[g]).tag@) || exists|x: int|
                    0 <= x < t && curk[x] == groups@[g].tag@,
                forall|key: Seq<char>| key_used(kpre, key) ==> exists|g: int| 0 <= g < groups@.len() && (#[trigger] groups@[g]).tag@ == key,
                forall|x: int| 0 <= x < t ==> exists|g: int| 0 <= g < groups@.len() && (#[trigger] groups@[g]).tag@ == #[trigger] curk[x],
            decreases curk.len() - t,
        {
            let key = &ck[t];
            assert(curk[t as int] == key@);
            assert(curk.take(t + 1).drop_last() =~= curk.take(t as int));
            assert(curk.take(t + 1).last() == curk[t as int]);
            let mut g: usize = 0;
            while g < groups.len() && groups[g].tag != *key
                invariant
                    g <= groups@.len(),
                    forall|h: int| 0 <= h < g ==> groups@[h].tag@ != key@,
                decreases groups@.len() - g,
            {
                g = g + 1;
            }
            let ghost gs = groups@;
            if g < groups.len() {
                let ghost before = views(groups@[g as int].cards@);
                let copy = card.duplicate();
                groups[g].cards.push(copy);
                assert(views(groups@[g as int].cards@) =~= before.push(cur));
                assert forall|h: int| 0 <= h < groups@.len() && h != g implies groups@[h] == gs[h] by {}
            } else {
                proof {
                    assert(!key_used(kpre, key@));
                    lemma_key_group_empty(pre, kpre, key@);
                    assert forall|x: int| 0 <= x < t implies curk.take(t as int)[x] != key@ by {
                        let w = choose|w: int| 0 <= w < groups@.len() && groups@[w].tag@ == curk[x];
                    }
                    lemma_key_count_zero(curk.take(t as int), key@);
                }
                let copy = card.duplicate();
                groups.push(TagGroup { tag: key.clone(), cards: vec![copy] });
            }
            proof {
                let gl = groups@.len() as int;
                assert(gs.len() <= gl);
                assert forall|h: int| 0 <= h < gs.len() implies (#[trigger] groups@[h]).tag@ == gs[h].tag@ by {}
                assert(groups@[g as int].tag@ == key@);
                assert forall|k: Seq<char>| key_used(kpre, k) implies exists|w: int| 0 <= w < groups@.len() && (#[trigger] groups@[w]).tag@ == k by {
                    let w = choose|w: int| 0 <= w < gs.len() && gs[w].tag@ == k;
                    assert(groups@[w].tag@ == k);
                }
                assert forall|x: int| 0 <= x < t + 1 implies exists|w: int| 0 <= w < groups@.len() && (#[trigger] groups@[w]).tag@ == #[trigger] curk[x] by {
                    if x < t {
                        let w = choose|w: int| 0 <= w < gs.len() && gs[w].tag@ == curk[x];
                        assert(groups@[w].tag@ == curk[x]);
                    } else {
                        assert(groups@[g as int].tag@ == curk[x]);
                    }
                }
                assert forall|h: int| 0 <= h < gl implies views((#[trigger] groups@[h]).cards@) == key_group(pre, kpre, groups@[h].tag@)
                    + Seq::new(key_count(curk.take(t + 1), groups@[h].tag@), |_i: int| cur) by {
                    let k = groups@[h].tag@;
                    if h == g {
                        assert(k == key@);
                    }
                    assert(Seq::new(key_count(curk.take(t + 1), k), |_i: int| cur) =~= if k == curk[t as int] {
                        Seq::new(key_count(curk.take(t as int), k), |_i: int| cur).push(cur)
                    } else {
                        Seq::new(key_count(curk.take(t as int), k), |_i: int| cur)
                    });
                }
            }
            t = t + 1;
        }
        proof {
            assert(curk.take(curk.len() as int) =~= curk);
            assert forall|h: int| 0 <= h < groups@.len() implies views((#[trigger] groups@[h]).cards@) == key_group(upto, kupto, groups@[h].tag@) by {}
            assert forall|h: int| 0 <= h < groups@.len() implies key_used(kupto, (#[trigger] groups@[h]).tag@) by {
                let k = groups@[h].tag@;
                if key_used(kpre, k) {
                    let (a, b) = choose|a: int, b: int| 0 <= a < kpre.len() && 0 <= b < kpre[a].len() && kpre[a][b] == k;
                    assert(kupto[a] == kpre[a]);
                } else {
                    let x = choose|x: int| 0 <= x < curk.len() && curk[x] == k;
                    assert(kupto[kpre.len() as int] == curk);
                }
            }
            assert forall|key: Seq<char>| key_used(kupto, key) implies exists|g: int| 0 <= g < groups@.len() && (#[trigger] groups@[g]).tag@ == key by {
                let (a, b) = choose|a: int, b: int| 0 <= a < kupto.len() && 0 <= b < kupto[a].len() && kupto[a][b] == key;
                if a < kpre.len() {
                    assert(kupto[a] == kpre[a]);
                    assert(key_used(kpre, key));
                } else {
                    assert(kupto[a] == curk);
                }
            }
        }
        i = i + 1;
    }
    proof {
        assert(cs.take(cs.len() as int) =~= cs);
        assert(ks.take(ks.len() as int) =~= ks);
    }
    groups
}

impl Store {
    /// Groups the cards by the lower-case form of each tag: a card is listed
    /// once in a group per tag of it that lowers to the group's key, so two
    /// tags that differ only in case list it twice. Keys are distinct and
    /// each comes from some tag.
    pub fn get_cards_group_by_tag(&self) -> (r: Vec<TagGroup>)
        ensures
            forall|g: int, h: int| 0 <= g < r@.len() && 0 <= h < r@.len() && g != h ==> r@[g].tag@ != r@[h].tag@,
            forall|g: int| 0 <= g < r@.len() ==> views((#[trigger] r@[g]).cards@) == key_group(self@.cards, lowered(self@.cards), r@[g].tag@),
            forall|g: int| 0 <= g < r@.len() ==> key_used(lowered(self@.cards), (#[trigger] r@[g]).tag@),
            forall|key: Seq<char>| key_used(lowered(self@.cards), key) ==> exists|g: int| 0 <= g < r@.len() && (#[trigger] r@[g]).tag@ == key,
    {
        let ghost cs = self@.cards;
        let mut keys: Vec<Vec<String>> = Vec::new();
        let mut i: usize = 0;
        while i < self.cards.len()
            invariant
                i <= cs.len(),
                cs == self@.cards,
                keys@.len() == i,
                forall|k: int| 0 <= k < i ==> #[trigger] strs_view(keys@[k]@) == lowered(cs)[k],
            decreases cs.len() - i,
        {
            let tags = &self.cards[i].tags;
            assert(strs_view(tags@) == cs[i as int].tags);
            let mut low: Vec<String> = Vec::new();
            let mut t: usize = 0;
            while t < tags.len()
                invariant
                    t <= tags@.len(),
                    strs_view(low@) == strs_view(tags@).take(t as int).map_values(|x: Seq<char>| lower_of(x)),
                decreases tags@.len() - t,
            {
                let ghost before = strs_view(low@);
                let l = lowercase(tags[t].as_str());
                assert(l@ == lower_of(strs_view(tags@)[t as int]));
                low.push(l);
                assert(strs_view(low@) =~= before.push(l@));
                t = t + 1;
                assert(strs_view(low@) =~= strs_view(tags@).take(t as int).map_values(|x: Seq<char>| lower_of(x)));
            }
            assert(strs_view(tags@).take(tags@.len() as int) =~= strs_view(tags@));
            assert(lowered(cs)[i as int] == cs[i as int].tags.map_values(|x: Seq<char>| lower_of(x)));
            keys.push(low);
            i = i + 1;
        }
        assert(keys_view(keys@) =~= lowered(cs));
        group_by_keys(&self.cards, &keys)
    }
}

} // verus!
