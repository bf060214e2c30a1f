use vstd::prelude::*;
use crate::entity::{
    Article, ArticleView, Card, CardView, DocumentItem, DocumentItemView, ProjectItem, ProjectItemView, Row,
};
use crate::hierarchy::{
    DESCENDANT_DEPTH, children_of, found_within, found_within_monotone, level, next_level,
    parent_ids, refreshed,
};
use crate::schema::{
    SchemaStateView, TableDefView, declared_tables, default_of, extends, lemma_declared_tables_wf,
    lemma_default_of, migrated, schema_complete,
};
use crate::store::{StoreView, mirror_in_item, mirror_in_project_item, mirrored};
use crate::table::{
    has_key, index_of_key, keys_below, keys_unique, lemma_keys_push, lemma_live_not_gone,
    lemma_row_with_at, live, row_with,
};

verus! {

/// A row appended under a fresh id is what a read of that id gives.
proof fn lemma_pushed_row<T: Row>(rows: Seq<T::V>, v: T::V, next: i64)
    requires
        keys_unique::<T>(rows),
        keys_below::<T>(rows, next),
        0 < next < i64::MAX,
        T::vkey(v) == next,
    ensures
        row_with::<T>(rows.push(v), next) == Some(v),
{
    lemma_keys_push::<T>(rows, v, next, (next + 1) as i64);
    let s = rows.push(v);
    assert(s[s.len() - 1] == v);
    lemma_row_with_at::<T>(s, s.len() - 1);
}

/// Creating a card and reading its id back gives exactly the fields it was
/// created with, stamped with the creation time.
pub proof fn card_create_then_get(
    s: StoreView,
    tags: Seq<Seq<char>>,
    links: Seq<i64>,
    content: Seq<char>,
    category: Seq<char>,
    now: i64,
)
    requires
        s.wf(),
        s.has_room(),
    ensures
        row_with::<Card>(s.card_inserted(tags, links, content, category, now).cards, s.next_id)
            == Some(CardView {
            id: s.next_id,
            create_time: now,
            update_time: now,
            tags: tags,
            links: links,
            content: content,
            category: category,
        }),
{
    lemma_pushed_row::<Card>(s.cards, s.new_card(tags, links, content, category, now), s.next_id);
}

/// Creating an article and reading its id back gives exactly the fields it
/// was created with, stamped with the creation time and not deleted.
pub proof fn article_create_then_get(
    s: StoreView,
    title: Seq<char>,
    author: Seq<char>,
    tags: Seq<Seq<char>>,
    links: Seq<i64>,
    content: Seq<char>,
    banner_bg: Seq<char>,
    is_top: bool,
    now: i64,
)
    requires
        s.wf(),
        s.has_room(),
    ensures
        row_with::<Article>(
            s.article_inserted(title, author, tags, links, content, banner_bg, is_top, now).articles,
            s.next_id,
        ) == Some(ArticleView {
            id: s.next_id,
            create_time: now,
            update_time: now,
            title: title,
            author: author,
            tags: tags,
            links: links,
            content: content,
            banner_bg: banner_bg,
            is_top: is_top,
            is_delete: false,
        }),
{
    lemma_pushed_row::<Article>(
        s.articles,
        s.new_article(title, author, tags, links, content, banner_bg, is_top, now),
        s.next_id,
    );
}

/// Creating a document item and reading its id back gives the item it was
/// created as.
pub proof fn item_create_then_get(s: StoreView, d: DocumentItemView)
    requires
        s.wf(),
        s.has_room(),
        d.id == s.next_id,
    ensures
        row_with::<DocumentItem>(s.item_inserted(d).document_items, s.next_id) == Some(d),
{
    lemma_pushed_row::<DocumentItem>(s.document_items, d, s.next_id);
}

/// Updating a card and reading it back gives the edited fields, its old id
/// and creation time, and an update time later than before when the clock
/// has moved on.
pub proof fn card_update_then_get(
    s: StoreView,
    id: i64,
    tags: Seq<Seq<char>>,
    links: Seq<i64>,
    content: Seq<char>,
    category: Seq<char>,
    now: i64,
)
    requires
        s.wf(),
        s.has_room(),
        has_key::<Card>(s.cards, id),
        now > s.cards[index_of_key::<Card>(s.cards, id)].update_time,
    ensures
        ({
            let prior = row_with::<Card>(s.cards, id)->Some_0;
            let got = row_with::<Card>(s.card_updated(id, tags, links, content, category, now).cards, id);
            &&& got is Some
            &&& got->Some_0.update_time > prior.update_time
            &&& got->Some_0 == CardView {
                update_time: now,
                tags: tags,
                links: links,
                content: content,
                category: category,
                ..prior
            }
        }),
{
    let i = index_of_key::<Card>(s.cards, id);
    lemma_row_with_at::<Card>(s.cards, i);
    let after = s.card_updated(id, tags, links, content, category, now).cards;
    assert(after.len() == s.cards.len());
    assert forall|a: int, b: int| 0 <= a < after.len() && 0 <= b < after.len() && a != b implies Card::vkey(after[a]) != Card::vkey(after[b]) by {
        assert(Card::vkey(after[a]) == Card::vkey(s.cards[a]));
        assert(Card::vkey(after[b]) == Card::vkey(s.cards[b]));
    }
    lemma_row_with_at::<Card>(after, i);
}

/// Updating an article and reading it back gives the edited fields, its old
/// id, creation time and deletion mark, and a later update time when the
/// clock has moved on.
pub proof fn article_update_then_get(
    s: StoreView,
    id: i64,
    title: Seq<char>,
    author: Seq<char>,
    tags: Seq<Seq<char>>,
    links: Seq<i64>,
    content: Seq<char>,
    banner_bg: Seq<char>,
    is_top: bool,
    now: i64,
)
    requires
        s.wf(),
        s.has_room(),
        has_key::<Article>(s.articles, id),
        now > s.articles[index_of_key::<Article>(s.articles, id)].update_time,
    ensures
        ({
            let prior = row_with::<Article>(s.articles, id)->Some_0;
            let got = row_with::<Article>(
                s.article_updated(id, title, author, tags, links, content, banner_bg, is_top, now).articles,
                id,
            );
            &&& got is Some
            &&& got->Some_0.update_time > prior.update_time
            &&& got->Some_0 == ArticleView {
                update_time: now,
                title: title,
                author: author,
                tags: tags,
                links: links,
                content: content,
                banner_bg: banner_bg,
                is_top: is_top,
                ..prior
            }
        }),
{
    let i = index_of_key::<Article>(s.articles, id);
    lemma_row_with_at::<Article>(s.articles, i);
    let after = s.article_updated(id, title, author, tags, links, content, banner_bg, is_top, now).articles;
    assert(after.len() == s.articles.len());
    assert forall|a: int, b: int| 0 <= a < after.len() && 0 <= b < after.len() && a != b implies Article::vkey(after[a]) != Article::vkey(after[b]) by {
        assert(Article::vkey(after[a]) == Article::vkey(s.articles[a]));
        assert(Article::vkey(after[b]) == Article::vkey(s.articles[b]));
    }
    lemma_row_with_at::<Article>(after, i);
}

/// Editing a document item that wraps a card writes the new content to the
/// card, to every other item wrapping the same card, to every project item
/// bound to the card (whatever its id), and to the item itself.
pub proof fn item_edit_reaches_card_and_siblings(s: StoreView, e: DocumentItemView, c: i64, d2: i64)
    requires
        s.wf(),
        has_key::<Card>(s.cards, c),
        has_key::<DocumentItem>(s.document_items, e.id),
        has_key::<DocumentItem>(s.document_items, d2),
        d2 != e.id,
        s.document_items[index_of_key::<DocumentItem>(s.document_items, d2)].is_card,
        s.document_items[index_of_key::<DocumentItem>(s.document_items, d2)].card_id == c,
        e.is_card,
        e.card_id == c,
    ensures
        ({
            let after = s.item_updated(e);
            &&& row_with::<Card>(after.cards, c) is Some
            &&& row_with::<Card>(after.cards, c)->Some_0.content == e.content
            &&& row_with::<DocumentItem>(after.document_items, d2) is Some
            &&& row_with::<DocumentItem>(after.document_items, d2)->Some_0.content == e.content
            &&& row_with::<DocumentItem>(after.document_items, e.id) == Some(e)
            &&& forall|k: int| 0 <= k < after.project_items.len() && (#[trigger] after.project_items[k]).ref_type == "card"@
                && after.project_items[k].ref_id == c ==> after.project_items[k].content == e.content
        }),
{
    let now = e.update_time;
    let i1 = index_of_key::<DocumentItem>(s.document_items, e.id);
    let i2 = index_of_key::<DocumentItem>(s.document_items, d2);
    let ic = index_of_key::<Card>(s.cards, c);
    lemma_row_with_at::<DocumentItem>(s.document_items, i1);
    lemma_row_with_at::<DocumentItem>(s.document_items, i2);
    lemma_row_with_at::<Card>(s.cards, ic);
    assert(c > 0);
    let after = s.item_updated(e);
    let s1 = StoreView {
        document_items: s.document_items.update(i1, e),
        ..s
    }.logged("document_item"@, "update"@, e.id, now);
    let s2 = mirrored(s1.with_card_content(c, e.content, now), true, c, e.title, e.content, now, e.id, 0, false);
    assert(s1.cards == s.cards);
    assert(s2.cards == s1.with_card_content(c, e.content, now).cards);
    assert(s2.cards[ic].content == e.content);
    assert(s2.document_items[i2] == mirror_in_item(s1.document_items[i2], true, c, e.title, e.content, now, e.id));
    assert(s2.document_items[i2].content == e.content);
    assert(s2.document_items[i1] == e);
    // every step keeps each row's id where it was
    assert(after.cards.len() == s.cards.len());
    assert(after.document_items.len() == s.document_items.len());
    assert forall|k: int| 0 <= k < after.cards.len() implies #[trigger] after.cards[k].id == s.cards[k].id by {}
    assert forall|k: int| 0 <= k < after.document_items.len() implies #[trigger] after.document_items[k].id
        == s.document_items[k].id by {}
    assert forall|a: int, b: int| 0 <= a < after.cards.len() && 0 <= b < after.cards.len() && a != b implies Card::vkey(after.cards[a]) != Card::vkey(after.cards[b]) by {
        assert(Card::vkey(s.cards[a]) != Card::vkey(s.cards[b]));
    }
    assert forall|a: int, b: int|
        0 <= a < after.document_items.len() && 0 <= b < after.document_items.len() && a != b implies DocumentItem::vkey(
        after.document_items[a],
    ) != DocumentItem::vkey(after.document_items[b]) by {
        assert(DocumentItem::vkey(s.document_items[a]) != DocumentItem::vkey(s.document_items[b]));
    }
    lemma_row_with_at::<Card>(after.cards, ic);
    lemma_row_with_at::<DocumentItem>(after.document_items, i1);
    lemma_row_with_at::<DocumentItem>(after.document_items, i2);
    reveal_strlit("card");
    reveal_strlit("article");
    assert("card"@ != "article"@) by {
        assert("card"@.len() != "article"@.len());
    }
    assert forall|k: int| 0 <= k < after.project_items.len() && (#[trigger] after.project_items[k]).ref_type == "card"@
        && after.project_items[k].ref_id == c implies after.project_items[k].content == e.content by {
        assert(after.project_items.len() == s.project_items.len());
        assert(0 < ProjectItem::vkey(s.project_items[k]));
        assert(s1.project_items[k] == s.project_items[k]);
        assert(s2.project_items[k] == mirror_in_project_item(s1.project_items[k], true, c, e.title, e.content, now, 0, false));
        assert(s2.project_items[k].ref_type == s.project_items[k].ref_type);
        assert(s2.project_items[k].ref_id == s.project_items[k].ref_id);
        if e.is_article && e.article_id > 0 {
            let s3 = mirrored(
                s2.with_article_text(e.article_id, e.title, e.content, now),
                false,
                e.article_id,
                e.title,
                e.content,
                now,
                e.id,
                0,
                false,
            );
            assert(after == s3);
            assert(s3.project_items[k] == mirror_in_project_item(s2.project_items[k], false, e.article_id, e.title, e.content, now, 0, false));
        } else {
            assert(after == s2);
        }
        assert(s.project_items[k].ref_type == "card"@);
        assert(s2.project_items[k].content == e.content);
    }
}

/// Editing a project item bound to a card writes the new content to the
/// card, and the new title and content to every other project item bound to
/// the same card.
pub proof fn project_item_edit_reaches_card_and_siblings(s: StoreView, e: ProjectItemView)
    requires
        s.wf(),
        has_key::<ProjectItem>(s.project_items, e.id),
        e.ref_type == "card"@,
        e.ref_id != 0,
    ensures
        ({
            let after = s.project_item_updated(e);
            &&& has_key::<Card>(s.cards, e.ref_id) ==> row_with::<Card>(after.cards, e.ref_id) is Some
                && row_with::<Card>(after.cards, e.ref_id)->Some_0.content == e.content
            &&& forall|k: int| 0 <= k < after.project_items.len() && (#[trigger] after.project_items[k]).ref_type == "card"@
                && after.project_items[k].ref_id == e.ref_id ==> after.project_items[k].content == e.content
                && after.project_items[k].title == e.title
        }),
{
    let now = e.update_time;
    let i1 = index_of_key::<ProjectItem>(s.project_items, e.id);
    lemma_row_with_at::<ProjectItem>(s.project_items, i1);
    let s1 = StoreView {
        project_items: s.project_items.update(i1, e),
        ..s
    }.logged("project_item"@, "update"@, e.id, now);
    let after = s.project_item_updated(e);
    assert(after == mirrored(s1.with_card_content(e.ref_id, e.content, now), true, e.ref_id, e.title, e.content, now, 0, e.id, true));
    assert forall|k: int| 0 <= k < after.project_items.len() && (#[trigger] after.project_items[k]).ref_type == "card"@
        && after.project_items[k].ref_id == e.ref_id implies after.project_items[k].content == e.content
        && after.project_items[k].title == e.title by {
        if k == i1 {
            assert(s1.project_items[k] == e);
        } else {
            assert(after.project_items[k] == mirror_in_project_item(s1.project_items[k], true, e.ref_id, e.title, e.content, now, e.id, true));
            assert(s1.project_items[k].id == s.project_items[k].id);
            assert(ProjectItem::vkey(s.project_items[k]) != ProjectItem::vkey(s.project_items[i1]));
        }
    }
    if has_key::<Card>(s.cards, e.ref_id) {
        let ic = index_of_key::<Card>(s.cards, e.ref_id);
        lemma_row_with_at::<Card>(s.cards, ic);
        assert(after.cards.len() == s.cards.len());
        assert forall|a: int, b: int| 0 <= a < after.cards.len() && 0 <= b < after.cards.len() && a != b implies Card::vkey(after.cards[a]) != Card::vkey(after.cards[b]) by {
            assert(Card::vkey(after.cards[a]) == Card::vkey(s.cards[a]));
            assert(Card::vkey(after.cards[b]) == Card::vkey(s.cards[b]));
        }
        lemma_row_with_at::<Card>(after.cards, ic);
    }
}

/// Updating a document item and reading it back gives exactly the row
/// written: the fan-out to other wrappers never rewrites the edited item.
pub proof fn item_update_then_get(s: StoreView, e: DocumentItemView)
    requires
        s.wf(),
        has_key::<DocumentItem>(s.document_items, e.id),
    ensures
        row_with::<DocumentItem>(s.item_updated(e).document_items, e.id) == Some(e),
{
    let i1 = index_of_key::<DocumentItem>(s.document_items, e.id);
    lemma_row_with_at::<DocumentItem>(s.document_items, i1);
    let after = s.item_updated(e);
    assert(after.document_items.len() == s.document_items.len());
    assert(after.document_items[i1] == e);
    assert forall|k: int| 0 <= k < after.document_items.len() implies #[trigger] after.document_items[k].id
        == s.document_items[k].id by {}
    assert forall|a: int, b: int|
        0 <= a < after.document_items.len() && 0 <= b < after.document_items.len() && a != b implies DocumentItem::vkey(
        after.document_items[a],
    ) != DocumentItem::vkey(after.document_items[b]) by {
        assert(DocumentItem::vkey(s.document_items[a]) != DocumentItem::vkey(s.document_items[b]));
    }
    lemma_row_with_at::<DocumentItem>(after.document_items, i1);
}

/// After a soft delete the row is still there, marked deleted, and no live
/// row (what the listing returns) carries its id.
pub proof fn article_soft_delete(s: StoreView, id: i64)
    requires
        s.wf(),
        has_key::<Article>(s.articles, id),
    ensures
        ({
            let after = s.article_deleted(id);
            &&& row_with::<Article>(after.articles, id) is Some
            &&& row_with::<Article>(after.articles, id)->Some_0.is_delete
            &&& forall|v: ArticleView| #[trigger] live::<Article>(after.articles).contains(v) ==> v.id != id
        }),
{
    let i = index_of_key::<Article>(s.articles, id);
    lemma_row_with_at::<Article>(s.articles, i);
    let after = s.article_deleted(id).articles;
    assert forall|a: int, b: int| 0 <= a < after.len() && 0 <= b < after.len() && a != b implies Article::vkey(after[a]) != Article::vkey(after[b]) by {
        assert(Article::vkey(s.articles[a]) != Article::vkey(s.articles[b]));
    }
    lemma_row_with_at::<Article>(after, i);
    assert forall|v: ArticleView| #[trigger] live::<Article>(after).contains(v) implies v.id != id by {
        lemma_live_not_gone::<Article>(after, v);
        let k = choose|k: int| 0 <= k < after.len() && after[k] == v;
        if v.id == id {
            assert(Article::vkey(after[k]) == Article::vkey(after[i]));
        }
    }
}

/// In a chain a → b → c of live items, recomputing the parents cache gives
/// b the parent a and c the parent b, and c counts as a descendant of a.
pub proof fn hierarchy_chain(a: DocumentItemView, b: DocumentItemView, c: DocumentItemView)
    requires
        a.id != b.id,
        b.id != c.id,
        a.id != c.id,
        !a.is_delete,
        !b.is_delete,
        !c.is_delete,
        a.children == seq![b.id],
        b.children == seq![c.id],
        c.children.len() == 0,
    ensures
        ({
            let items = seq![a, b, c];
            let after = items.map_values(|d: DocumentItemView| refreshed(items, d));
            &&& after[1].parents == seq![a.id]
            &&& after[2].parents == seq![b.id]
            &&& found_within(items, c.id, a.id, DESCENDANT_DEPTH as nat)
        }),
{
    let items = seq![a, b, c];
    assert(items.drop_last() =~= seq![a, b]);
    assert(seq![a, b].drop_last() =~= seq![a]);
    assert(seq![a].drop_last() =~= Seq::<DocumentItemView>::empty());
    assert(!c.children.contains(b.id));
    assert(!c.children.contains(c.id));
    assert(!b.children.contains(b.id)) by {
        assert(b.children[0] == c.id);
    }
    assert(!a.children.contains(c.id)) by {
        assert(a.children[0] == b.id);
    }
    assert(b.children.contains(c.id)) by {
        assert(b.children[0] == c.id);
    }
    assert(a.children.contains(b.id)) by {
        assert(a.children[0] == b.id);
    }
    assert(seq![a].len() == 1 && seq![a].last() == a);
    assert(parent_ids(Seq::<DocumentItemView>::empty(), b.id) =~= Seq::<i64>::empty());
    assert(parent_ids(Seq::<DocumentItemView>::empty(), c.id) =~= Seq::<i64>::empty());
    assert(parent_ids(seq![a], b.id) =~= seq![a.id]);
    assert(parent_ids(seq![a, b], b.id) =~= seq![a.id]);
    assert(parent_ids(items, b.id) =~= seq![a.id]);
    assert(parent_ids(seq![a], c.id) =~= Seq::<i64>::empty());
    assert(parent_ids(seq![a, b], c.id) =~= seq![b.id]);
    assert(parent_ids(items, c.id) =~= seq![b.id]);
    assert(items.last() == c);
    assert(seq![a, b].last() == b);
    assert(children_of(seq![a, b], b.id) == b.children);
    assert(children_of(items, b.id) == b.children);
    assert(children_of(seq![a], a.id) == a.children);
    assert(children_of(seq![a, b], a.id) == a.children);
    assert(children_of(items, a.id) == a.children);
    assert(level(items, a.id, 0) == seq![b.id]);
    let l0 = seq![b.id];
    assert(l0.drop_last() =~= Seq::<i64>::empty());
    assert(l0.last() == b.id);
    assert(next_level(items, Seq::<i64>::empty()) =~= Seq::<i64>::empty());
    assert(next_level(items, l0) == next_level(items, l0.drop_last()) + children_of(items, b.id));
    assert(next_level(items, l0) =~= b.children);
    assert(level(items, a.id, 1) == seq![c.id]);
    assert(level(items, a.id, 1).contains(c.id)) by {
        assert(level(items, a.id, 1)[0] == c.id);
    }
    found_within_monotone(items, c.id, a.id, 1, DESCENDANT_DEPTH as nat);
}

/// With a cycle a → b → a of live items, recomputing the parents cache
/// gives each the other as parent, and the depth-capped walk has a definite
/// answer: a lies below itself. (That the walks themselves end on cycles is
/// their termination proof.)
pub proof fn hierarchy_cycle(a: DocumentItemView, b: DocumentItemView)
    requires
        a.id != b.id,
        !a.is_delete,
        !b.is_delete,
        a.children == seq![b.id],
        b.children == seq![a.id],
    ensures
        ({
            let items = seq![a, b];
            let after = items.map_values(|d: DocumentItemView| refreshed(items, d));
            &&& after[0].parents == seq![b.id]
            &&& after[1].parents == seq![a.id]
            &&& found_within(items, a.id, a.id, DESCENDANT_DEPTH as nat)
        }),
{
    let items = seq![a, b];
    assert(items.drop_last() =~= seq![a]);
    assert(seq![a].drop_last() =~= Seq::<DocumentItemView>::empty());
    assert(items.last() == b);
    assert(seq![a].len() == 1 && seq![a].last() == a);
    assert(a.children.contains(b.id)) by {
        assert(a.children[0] == b.id);
    }
    assert(b.children.contains(a.id)) by {
        assert(b.children[0] == a.id);
    }
    assert(!a.children.contains(a.id)) by {
        assert(a.children[0] == b.id);
    }
    assert(!b.children.contains(b.id)) by {
        assert(b.children[0] == a.id);
    }
    assert(parent_ids(Seq::<DocumentItemView>::empty(), a.id) =~= Seq::<i64>::empty());
    assert(parent_ids(Seq::<DocumentItemView>::empty(), b.id) =~= Seq::<i64>::empty());
    assert(parent_ids(seq![a], a.id) =~= Seq::<i64>::empty());
    assert(parent_ids(items, a.id) =~= seq![b.id]);
    assert(parent_ids(seq![a], b.id) =~= seq![a.id]);
    assert(parent_ids(items, b.id) =~= seq![a.id]);
    assert(children_of(seq![a], a.id) == a.children);
    assert(children_of(items, a.id) == a.children);
    assert(children_of(items, b.id) == b.children);
    let l0 = seq![b.id];
    assert(level(items, a.id, 0) == l0);
    assert(l0.drop_last() =~= Seq::<i64>::empty());
    assert(l0.last() == b.id);
    assert(next_level(items, Seq::<i64>::empty()) =~= Seq::<i64>::empty());
    assert(next_level(items, l0) == next_level(items, l0.drop_last()) + children_of(items, b.id));
    assert(next_level(items, l0) =~= b.children);
    assert(level(items, a.id, 1).contains(a.id)) by {
        assert(level(items, a.id, 1)[0] == a.id);
    }
    found_within_monotone(items, a.id, a.id, 1, DESCENDANT_DEPTH as nat);
}

/// Migrating twice in a row: the second run changes nothing and makes no
/// change to replay.
pub proof fn migration_idempotent(
    s0: SchemaStateView,
    s1: SchemaStateView,
    n1: nat,
    s2: SchemaStateView,
    n2: nat,
    defs: Seq<TableDefView>,
    target: i64,
)
    requires
        migrated(s0, s1, n1, defs, target),
        migrated(s1, s2, n2, defs, target),
    ensures
        s2 == s1,
        n2 == 0,
{
}

/// The defaults that migrating an older store writes into its old rows:
/// cards get category `permanent`; articles get an empty banner and are
/// neither pinned nor deleted; document items get an empty parents list.
pub proof fn registry_defaults()
    ensures
        default_of(declared_tables(), "cards"@, "category"@) == "permanent"@,
        default_of(declared_tables(), "articles"@, "links"@) == ""@,
        default_of(declared_tables(), "articles"@, "banner_bg"@) == ""@,
        default_of(declared_tables(), "articles"@, "is_top"@) == "0"@,
        default_of(declared_tables(), "articles"@, "is_delete"@) == "0"@,
        default_of(declared_tables(), "document_items"@, "parents"@) == "[]"@,
{
    lemma_declared_tables_wf();
    let d = declared_tables();
    lemma_default_of(d, 0, 6);
    lemma_default_of(d, 1, 6);
    lemma_default_of(d, 1, 8);
    lemma_default_of(d, 1, 9);
    lemma_default_of(d, 1, 10);
    lemma_default_of(d, 3, 16);
}

/// Migrating a store whose tables already hold every declared column adds
/// nothing, even where the recorded version is behind.
pub proof fn migration_on_current_schema(s0: SchemaStateView, s1: SchemaStateView, n: nat, defs: Seq<TableDefView>, target: i64)
    requires
        migrated(s0, s1, n, defs, target),
        schema_complete(s0, defs),
    ensures
        s1.tables == s0.tables,
        n == 0,
{
}

/// Migrating a store made under an older schema gives it every declared
/// table and column; every old table keeps its columns and every cell, and
/// each added column holds its declared default in the old rows.
pub proof fn migration_additive(s0: SchemaStateView, s1: SchemaStateView, n: nat, defs: Seq<TableDefView>, target: i64)
    requires
        migrated(s0, s1, n, defs, target),
        s0.version < target,
    ensures
        s1.version == target,
        schema_complete(s1, defs),
        extends(s0, s1, defs),
{
}

} // verus!
