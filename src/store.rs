use vstd::prelude::*;
use crate::entity::{
    Article, ArticleView, Card, CardView, DocumentItem, DocumentItemView, Operation,
    OperationView, ProjectItem, ProjectItemView, Row, contains_id, copy_strings, strs_view,
};
use crate::records::{
    DailyNote, DailyNoteView, Document, DocumentView, DocumentWithCount, Project, ProjectView, TimeRecord,
    TimeRecordView, WhiteBoard, WhiteBoardView, same_strings, ChatMessage, ChatMessageView, Message, Pdf,
    PdfHighlight, PdfHighlightView, PdfView, messages_view,
};
use crate::hierarchy::{get_document_children_count, items_view, reach_set};
use crate::table::{
    find_index, has_key, index_of_key, keys_below, keys_unique, lemma_keys_preserved, lemma_keys_push, lemma_keys_remove,
    lemma_row_with_at, list_live, live, live_rows,
    row_with, sorted_desc, views,
};

verus! {

/// What can go wrong in a store operation.
#[derive(PartialEq, Eq, Structural, Debug, Clone, Copy)]
pub enum StoreError {
    /// No row has the id asked for.
    NotFound,
    /// The store is not open.
    StoreUnavailable,
    /// A schema upgrade step failed.
    SchemaError,
    /// A text column does not hold the JSON it should.
    SerializationError,
    /// A constraint of the store would break (here: ids are exhausted).
    ConstraintViolation,
}

/// The entity tables and the operation log, held in memory.
pub struct Store {
    pub cards: Vec<Card>,
    pub articles: Vec<Article>,
    pub document_items: Vec<DocumentItem>,
    pub project_items: Vec<ProjectItem>,
    pub documents: Vec<Document>,
    pub projects: Vec<Project>,
    pub time_records: Vec<TimeRecord>,
    pub daily_notes: Vec<DailyNote>,
    pub white_boards: Vec<WhiteBoard>,
    pub pdfs: Vec<Pdf>,
    pub pdf_highlights: Vec<PdfHighlight>,
    pub chat_messages: Vec<ChatMessage>,
    pub operations: Vec<Operation>,
    /// The id the next new row (of any table) receives.
    pub next_id: i64,
}

pub struct StoreView {
    pub cards: Seq<CardView>,
    pub articles: Seq<ArticleView>,
    pub document_items: Seq<DocumentItemView>,
    pub project_items: Seq<ProjectItemView>,
    pub documents: Seq<DocumentView>,
    pub projects: Seq<ProjectView>,
    pub time_records: Seq<TimeRecordView>,
    pub daily_notes: Seq<DailyNoteView>,
    pub white_boards: Seq<WhiteBoardView>,
    pub pdfs: Seq<PdfView>,
    pub pdf_highlights: Seq<PdfHighlightView>,
    pub chat_messages: Seq<ChatMessageView>,
    pub operations: Seq<OperationView>,
    pub next_id: i64,
}

impl View for Store {
    type V = StoreView;

    open spec fn view(&self) -> StoreView {
        StoreView {
            cards: views(self.cards@),
            articles: views(self.articles@),
            document_items: views(self.document_items@),
            project_items: views(self.project_items@),
            documents: views(self.documents@),
            projects: views(self.projects@),
            time_records: views(self.time_records@),
            daily_notes: views(self.daily_notes@),
            white_boards: views(self.white_boards@),
            pdfs: views(self.pdfs@),
            pdf_highlights: views(self.pdf_highlights@),
            chat_messages: views(self.chat_messages@),
            operations: views(self.operations@),
            next_id: self.next_id,
        }
    }
}

/// The log row recorded for an action on an entity.
pub open spec fn op_row(id: i64, time: i64, ty: Seq<char>, action: Seq<char>, target: i64) -> OperationView {
    OperationView {
        id: id,
        operation_time: time,
        operation_content_type: ty,
        operation_action: action,
        operation_id: target,
    }
}

/// Whether a document item wraps the card (`card`) or article (`!card`)
/// with id `ref_id`.
pub open spec fn item_wraps(d: DocumentItemView, card: bool, ref_id: i64) -> bool {
    if card {
        d.is_card && d.card_id == ref_id
    } else {
        d.is_article && d.article_id == ref_id
    }
}

/// Whether a project item is bound to the card (`card`) or article (`!card`)
/// with id `ref_id`.
pub open spec fn project_item_binds(p: ProjectItemView, card: bool, ref_id: i64) -> bool {
    &&& p.ref_type == (if card { "card"@ } else { "article"@ })
    &&& p.ref_id == ref_id
}

/// A document item other than `except` that wraps the source takes its new
/// content, and for an article its title too.
pub open spec fn mirror_in_item(
    d: DocumentItemView,
    card: bool,
    ref_id: i64,
    title: Seq<char>,
    content: Seq<char>,
    now: i64,
    except: i64,
) -> DocumentItemView {
    if item_wraps(d, card, ref_id) && d.id != except {
        DocumentItemView {
            update_time: now,
            content: content,
            title: if card { d.title } else { title },
            ..d
        }
    } else {
        d
    }
}

/// A project item other than `except` bound to the source takes its new
/// content, and its title too for an article or where `retitle` is set (an
/// edit made through a project item, whose title its siblings share).
pub open spec fn mirror_in_project_item(
    p: ProjectItemView,
    card: bool,
    ref_id: i64,
    title: Seq<char>,
    content: Seq<char>,
    now: i64,
    except: i64,
    retitle: bool,
) -> ProjectItemView {
    if project_item_binds(p, card, ref_id) && p.id != except {
        ProjectItemView {
            update_time: now,
            content: content,
            title: if card && !retitle { p.title } else { title },
            ..p
        }
    } else {
        p
    }
}

/// The mirrors of a source's new content pushed into every wrapper of it
/// but the document item `except_item` and the project item
/// `except_project` (ids are unique per table only; 0 names no row). Bound
/// project items take the title too where `retitle` is set.
pub open spec fn mirrored(
    s: StoreView,
    card: bool,
    ref_id: i64,
    title: Seq<char>,
    content: Seq<char>,
    now: i64,
    except_item: i64,
    except_project: i64,
    retitle: bool,
) -> StoreView {
    StoreView {
        document_items: s.document_items.map_values(
            |d: DocumentItemView| mirror_in_item(d, card, ref_id, title, content, now, except_item),
        ),
        project_items: s.project_items.map_values(
            |p: ProjectItemView| mirror_in_project_item(p, card, ref_id, title, content, now, except_project, retitle),
        ),
        ..s
    }
}

/// Whether a bulk delete removes project item `p`: one in no project
/// (`target` is `None`), or one outside project `pid` (`Some(pid)`).
pub open spec fn doomed(p: ProjectItemView, target: Option<i64>) -> bool {
    match target {
        None => p.projects.len() == 0,
        Some(pid) => !p.projects.contains(pid),
    }
}

/// The log rows of deleting `gone` in order, ids from `start` on.
pub open spec fn deletion_log(gone: Seq<ProjectItemView>, start: i64, now: i64) -> Seq<OperationView> {
    Seq::new(gone.len(), |k: int| op_row((start + k) as i64, now, "project_item"@, "delete"@, gone[k].id))
}

impl StoreView {
    /// Ids are positive, below `next_id`, and unique within each table.
    pub open spec fn wf(self) -> bool {
        &&& self.next_id >= 1
        &&& keys_below::<Card>(self.cards, self.next_id)
        &&& keys_unique::<Card>(self.cards)
        &&& keys_below::<Article>(self.articles, self.next_id)
        &&& keys_unique::<Article>(self.articles)
        &&& keys_below::<DocumentItem>(self.document_items, self.next_id)
        &&& keys_unique::<DocumentItem>(self.document_items)
        &&& keys_below::<ProjectItem>(self.project_items, self.next_id)
        &&& keys_unique::<ProjectItem>(self.project_items)
        &&& keys_below::<Document>(self.documents, self.next_id)
        &&& keys_unique::<Document>(self.documents)
        &&& keys_below::<Project>(self.projects, self.next_id)
        &&& keys_unique::<Project>(self.projects)
        &&& keys_below::<TimeRecord>(self.time_records, self.next_id)
        &&& keys_unique::<TimeRecord>(self.time_records)
        &&& keys_below::<DailyNote>(self.daily_notes, self.next_id)
        &&& keys_unique::<DailyNote>(self.daily_notes)
        &&& keys_below::<WhiteBoard>(self.white_boards, self.next_id)
        &&& keys_unique::<WhiteBoard>(self.white_boards)
        &&& keys_below::<Pdf>(self.pdfs, self.next_id)
        &&& keys_unique::<Pdf>(self.pdfs)
        &&& keys_below::<PdfHighlight>(self.pdf_highlights, self.next_id)
        &&& keys_unique::<PdfHighlight>(self.pdf_highlights)
        &&& keys_below::<ChatMessage>(self.chat_messages, self.next_id)
        &&& keys_unique::<ChatMessage>(self.chat_messages)
        &&& keys_below::<Operation>(self.operations, self.next_id)
        &&& keys_unique::<Operation>(self.operations)
    }

    /// An id is left for a new row (its log row is written only where one
    /// more id remains).
    pub open spec fn has_room(self) -> bool {
        self.next_id < i64::MAX
    }

    /// The store after appending a log row; where ids have run out the log
    /// row is skipped, and the write it records still stands.
    pub open spec fn logged(self, ty: Seq<char>, action: Seq<char>, target: i64, now: i64) -> StoreView {
        if self.next_id < i64::MAX {
            StoreView {
                operations: self.operations.push(op_row(self.next_id, now, ty, action, target)),
                next_id: (self.next_id + 1) as i64,
                ..self
            }
        } else {
            self
        }
    }

    /// The card that `insert_one` creates.
    pub open spec fn new_card(self, tags: Seq<Seq<char>>, links: Seq<i64>, content: Seq<char>, category: Seq<char>, now: i64) -> CardView {
        CardView {
            id: self.next_id,
            create_time: now,
            update_time: now,
            tags: tags,
            links: links,
            content: content,
            category: category,
        }
    }

    /// The store after `insert_one`.
    pub open spec fn card_inserted(self, tags: Seq<Seq<char>>, links: Seq<i64>, content: Seq<char>, category: Seq<char>, now: i64) -> StoreView {
        StoreView {
            cards: self.cards.push(self.new_card(tags, links, content, category, now)),
            next_id: (self.next_id + 1) as i64,
            ..self
        }.logged("card"@, "insert"@, self.next_id, now)
    }

    /// The store after `update_one` on an existing card.
    pub open spec fn card_updated(self, id: i64, tags: Seq<Seq<char>>, links: Seq<i64>, content: Seq<char>, category: Seq<char>, now: i64) -> StoreView {
        let i = index_of_key::<Card>(self.cards, id);
        let old = self.cards[i];
        mirrored(
            StoreView {
                cards: self.cards.update(
                    i,
                    CardView { update_time: now, tags: tags, links: links, content: content, category: category, ..old },
                ),
                ..self
            },
            true,
            id,
            ""@,
            content,
            now,
            0,
            0,
            false,
        ).logged("card"@, "update"@, id, now)
    }

    /// The article that `create_article` creates.
    pub open spec fn new_article(
        self,
        title: Seq<char>,
        author: Seq<char>,
        tags: Seq<Seq<char>>,
        links: Seq<i64>,
        content: Seq<char>,
        banner_bg: Seq<char>,
        is_top: bool,
        now: i64,
    ) -> ArticleView {
        ArticleView {
            id: self.next_id,
            create_time: now,
            update_time: now,
            title: title,
            author: author,
            tags: tags,
            links: links,
            content: content,
            banner_bg: banner_bg,
            is_top: is_top,
            is_delete: false,
        }
    }

    /// The store after `create_article`.
    pub open spec fn article_inserted(
        self,
        title: Seq<char>,
        author: Seq<char>,
        tags: Seq<Seq<char>>,
        links: Seq<i64>,
        content: Seq<char>,
        banner_bg: Seq<char>,
        is_top: bool,
        now: i64,
    ) -> StoreView {
        StoreView {
            articles: self.articles.push(
                self.new_article(title, author, tags, links, content, banner_bg, is_top, now),
            ),
            next_id: (self.next_id + 1) as i64,
            ..self
        }.logged("article"@, "insert"@, self.next_id, now)
    }

    /// The article with id `id` after `update_article`.
    pub open spec fn edited_article(
        self,
        id: i64,
        title: Seq<char>,
        author: Seq<char>,
        tags: Seq<Seq<char>>,
        links: Seq<i64>,
        content: Seq<char>,
        banner_bg: Seq<char>,
        is_top: bool,
        now: i64,
    ) -> ArticleView {
        ArticleView {
            update_time: now,
            title: title,
            author: author,
            tags: tags,
            links: links,
            content: content,
            banner_bg: banner_bg,
            is_top: is_top,
            ..self.articles[index_of_key::<Article>(self.articles, id)]
        }
    }

    /// The store after `update_article` on an existing article.
    pub open spec fn article_updated(
        self,
        id: i64,
        title: Seq<char>,
        author: Seq<char>,
        tags: Seq<Seq<char>>,
        links: Seq<i64>,
        content: Seq<char>,
        banner_bg: Seq<char>,
        is_top: bool,
        now: i64,
    ) -> StoreView {
        mirrored(
            StoreView {
                articles: self.articles.update(
                    index_of_key::<Article>(self.articles, id),
                    self.edited_article(id, title, author, tags, links, content, banner_bg, is_top, now),
                ),
                ..self
            },
            false,
            id,
            title,
            content,
            now,
            0,
            0,
            false,
        ).logged("article"@, "update"@, id, now)
    }

    /// The store after `delete_article` on an existing article.
    pub open spec fn article_deleted(self, id: i64) -> StoreView {
        let i = index_of_key::<Article>(self.articles, id);
        StoreView {
            articles: self.articles.update(i, ArticleView { is_delete: true, ..self.articles[i] }),
            ..self
        }
    }

    /// The store with card `card_id` (if there is one) given new content.
    pub open spec fn with_card_content(self, card_id: i64, content: Seq<char>, now: i64) -> StoreView {
        if has_key::<Card>(self.cards, card_id) {
            let i = index_of_key::<Card>(self.cards, card_id);
            StoreView {
                cards: self.cards.update(i, CardView { update_time: now, content: content, ..self.cards[i] }),
                ..self
            }
        } else {
            self
        }
    }

    /// The store with article `article_id` (if there is one) given a new
    /// title and content.
    pub open spec fn with_article_text(self, article_id: i64, title: Seq<char>, content: Seq<char>, now: i64) -> StoreView {
        if has_key::<Article>(self.articles, article_id) {
            let i = index_of_key::<Article>(self.articles, article_id);
            StoreView {
                articles: self.articles.update(
                    i,
                    ArticleView { update_time: now, title: title, content: content, ..self.articles[i] },
                ),
                ..self
            }
        } else {
            self
        }
    }

    /// The store after `create_document_item`, which adds `d` under the next id.
    pub open spec fn item_inserted(self, d: DocumentItemView) -> StoreView {
        StoreView {
            document_items: self.document_items.push(d),
            next_id: (self.next_id + 1) as i64,
            ..self
        }.logged("document_item"@, "insert"@, self.next_id, d.create_time)
    }

    /// The store after `update_document_item` wrote `e` over the item with
    /// the same id: the wrapped card or article takes its content (and an
    /// article its title), and so does every other wrapper of it.
    pub open spec fn item_updated(self, e: DocumentItemView) -> StoreView {
        let now = e.update_time;
        let s1 = StoreView {
            document_items: self.document_items.update(index_of_key::<DocumentItem>(self.document_items, e.id), e),
            ..self
        }.logged("document_item"@, "update"@, e.id, now);
        let s2 = if e.is_card && e.card_id > 0 {
            mirrored(s1.with_card_content(e.card_id, e.content, now), true, e.card_id, e.title, e.content, now, e.id, 0, false)
        } else {
            s1
        };
        if e.is_article && e.article_id > 0 {
            mirrored(
                s2.with_article_text(e.article_id, e.title, e.content, now),
                false,
                e.article_id,
                e.title,
                e.content,
                now,
                e.id,
                0,
                false,
            )
        } else {
            s2
        }
    }

    /// The store after `delete_document_item` on an existing item.
    pub open spec fn item_deleted(self, id: i64) -> StoreView {
        let i = index_of_key::<DocumentItem>(self.document_items, id);
        StoreView {
            document_items: self.document_items.update(i, DocumentItemView { is_delete: true, ..self.document_items[i] }),
            ..self
        }
    }

    /// The store after `create_project_item`, which adds `p` under the next id.
    pub open spec fn project_item_inserted(self, p: ProjectItemView) -> StoreView {
        StoreView {
            project_items: self.project_items.push(p),
            next_id: (self.next_id + 1) as i64,
            ..self
        }.logged("project_item"@, "insert"@, self.next_id, p.create_time)
    }

    /// The store after `update_project_item` wrote `e` over the item with the
    /// same id: where it is bound (`ref_id` set) to a card or an article, that
    /// entity takes its content (and an article its title), every other
    /// project item bound to it takes its title and content, and every
    /// document item wrapping it its content (and for an article its title).
    pub open spec fn project_item_updated(self, e: ProjectItemView) -> StoreView {
        let now = e.update_time;
        let s1 = StoreView {
            project_items: self.project_items.update(index_of_key::<ProjectItem>(self.project_items, e.id), e),
            ..self
        }.logged("project_item"@, "update"@, e.id, now);
        if e.ref_type == "card"@ && e.ref_id != 0 {
            mirrored(s1.with_card_content(e.ref_id, e.content, now), true, e.ref_id, e.title, e.content, now, 0, e.id, true)
        } else if e.ref_type == "article"@ && e.ref_id != 0 {
            mirrored(
                s1.with_article_text(e.ref_id, e.title, e.content, now),
                false,
                e.ref_id,
                e.title,
                e.content,
                now,
                0,
                e.id,
                true,
            )
        } else {
            s1
        }
    }

    /// The store after `delete_project_item` on an existing item: the row
    /// goes, and the deletion is logged where ids remain.
    pub open spec fn project_item_deleted(self, id: i64, now: i64) -> StoreView {
        let s1 = StoreView {
            project_items: self.project_items.remove(index_of_key::<ProjectItem>(self.project_items, id)),
            ..self
        };
        if self.next_id < i64::MAX {
            s1.logged("project_item"@, "delete"@, id, now)
        } else {
            s1
        }
    }
}

impl Store {
    /// An empty store.
    pub fn new() -> (r: Store)
        ensures
            r@.wf(),
            r@.cards.len() == 0,
            r@.articles.len() == 0,
            r@.document_items.len() == 0,
            r@.project_items.len() == 0,
            r@.documents.len() == 0,
            r@.projects.len() == 0,
            r@.time_records.len() == 0,
            r@.daily_notes.len() == 0,
            r@.white_boards.len() == 0,
            r@.pdfs.len() == 0,
            r@.pdf_highlights.len() == 0,
            r@.chat_messages.len() == 0,
            r@.operations.len() == 0,
            r@.next_id == 1,
    {
        Store {
            cards: Vec::new(),
            articles: Vec::new(),
            document_items: Vec::new(),
            project_items: Vec::new(),
            documents: Vec::new(),
            projects: Vec::new(),
            time_records: Vec::new(),
            daily_notes: Vec::new(),
            white_boards: Vec::new(),
            pdfs: Vec::new(),
            pdf_highlights: Vec::new(),
            chat_messages: Vec::new(),
            operations: Vec::new(),
            next_id: 1,
        }
    }

    /// Appends a row to the operation log.
    pub fn insert_operation(&mut self, operation_id: i64, operation_content_type: &str, operation_action: &str, now: i64)
        requires
            old(self)@.wf(),
        ensures
            final(self)@ == old(self)@.logged(operation_content_type@, operation_action@, operation_id, now),
            final(self)@.wf(),
    {
        if self.next_id == i64::MAX {
            return;
        }
        let op = Operation {
            id: self.next_id,
            operation_time: now,
            operation_content_type: operation_content_type.to_owned(),
            operation_action: operation_action.to_owned(),
            operation_id: operation_id,
        };
        self.operations.push(op);
        self.next_id = self.next_id + 1;
        assert(self@.operations =~= old(self)@.operations.push(
            op_row(old(self).next_id, now, operation_content_type@, operation_action@, operation_id),
        ));
    }

    /// The operation log, latest first.
    pub fn get_operation_list(&self) -> (r: Vec<Operation>)
        ensures
            views(r@).to_multiset() == live::<Operation>(self@.operations).to_multiset(),
            sorted_desc::<Operation>(views(r@)),
    {
        list_live(&self.operations)
    }

    /// Adds a card; its id is returned.
    pub fn insert_one(&mut self, tags: Vec<String>, links: Vec<i64>, content: &str, category: &str, now: i64) -> (r: Result<i64, StoreError>)
        requires
            old(self)@.wf(),
        ensures
            final(self)@.wf(),
            old(self)@.has_room() ==> r == Ok::<i64, StoreError>(old(self).next_id) && final(self)@
                == old(self)@.card_inserted(strs_view(tags@), links@, content@, category@, now),
            !old(self)@.has_room() ==> r == Err::<i64, StoreError>(StoreError::ConstraintViolation)
                && final(self)@ == old(self)@,
    {
        if self.next_id == i64::MAX {
            return Err(StoreError::ConstraintViolation);
        }
        let id = self.next_id;
        let card = Card {
            id: id,
            create_time: now,
            update_time: now,
            tags: tags,
            links: links,
            content: content.to_owned(),
            category: category.to_owned(),
        };
        self.cards.push(card);
        self.next_id = id + 1;
        assert(self@.cards =~= old(self)@.cards.push(
            old(self)@.new_card(strs_view(tags@), links@, content@, category@, now),
        ));
        self.insert_operation(id, "card", "insert", now);
        Ok(id)
    }

    /// The card with id `id`.
    pub fn find_one(&self, id: i64) -> (r: Result<Card, StoreError>)
        requires
            self@.wf(),
        ensures
            match r {
                Ok(c) => row_with::<Card>(self@.cards, id) == Some(c@),
                Err(e) => e == StoreError::NotFound && row_with::<Card>(self@.cards, id) is None,
            },
    {
        match find_index(&self.cards, id) {
            Some(i) => {
                proof { lemma_row_with_at::<Card>(self@.cards, i as int); }
                Ok(self.cards[i].duplicate())
            },
            None => Err(StoreError::NotFound),
        }
    }

    /// Every card, latest write first.
    pub fn find_all(&self) -> (r: Vec<Card>)
        ensures
            views(r@).to_multiset() == live::<Card>(self@.cards).to_multiset(),
            sorted_desc::<Card>(views(r@)),
    {
        list_live(&self.cards)
    }

    /// Removes the card with id `id`; returns how many rows went.
    pub fn delete_one(&mut self, id: i64) -> (r: usize)
        requires
            old(self)@.wf(),
        ensures
            final(self)@.wf(),
            has_key::<Card>(old(self)@.cards, id) ==> r == 1 && final(self)@ == (StoreView {
                cards: old(self)@.cards.remove(index_of_key::<Card>(old(self)@.cards, id)),
                ..old(self)@
            }),
            !has_key::<Card>(old(self)@.cards, id) ==> r == 0 && final(self)@ == old(self)@,
    {
        match find_index(&self.cards, id) {
            Some(i) => {
                proof { lemma_row_with_at::<Card>(self@.cards, i as int); }
                self.cards.remove(i);
                assert(self@.cards =~= old(self)@.cards.remove(i as int));
                1
            },
            None => 0,
        }
    }

    /// Rewrites the card with id `id`, then pushes its new content into
    /// every wrapper of it; returns how many cards were written.
    pub fn update_one(&mut self, id: i64, tags: Vec<String>, links: Vec<i64>, content: &str, category: &str, now: i64) -> (r: Result<usize, StoreError>)
        requires
            old(self)@.wf(),
        ensures
            final(self)@.wf(),
            !has_key::<Card>(old(self)@.cards, id) ==> r == Ok::<usize, StoreError>(0) && final(self)@ == old(self)@,
            has_key::<Card>(old(self)@.cards, id) ==> r == Ok::<usize, StoreError>(1)
                && final(self)@ == old(self)@.card_updated(id, strs_view(tags@), links@, content@, category@, now),
    {
        match find_index(&self.cards, id) {
            None => Ok(0),
            Some(i) => {
                proof { lemma_row_with_at::<Card>(self@.cards, i as int); }
                let card = Card {
                    id: self.cards[i].id,
                    create_time: self.cards[i].create_time,
                    update_time: now,
                    tags: tags,
                    links: links,
                    content: content.to_owned(),
                    category: category.to_owned(),
                };
                let ghost edited = card@;
                self.cards.set(i, card);
                assert(self@.cards =~= old(self)@.cards.update(i as int, edited));
                proof { lemma_keys_preserved::<Card>(old(self)@.cards, self@.cards, self.next_id); }
                self.mirror(true, id, "", content, now, 0, 0, false);
                self.insert_operation(id, "card", "update", now);
                Ok(1)
            },
        }
    }

    /// The tags of the card with id `id`; none where there is no such card.
    pub fn get_tags_by_card_id(&self, card_id: i64) -> (r: Vec<String>)
        requires
            self@.wf(),
        ensures
            match row_with::<Card>(self@.cards, card_id) {
                Some(c) => strs_view(r@) == c.tags,
                None => r@.len() == 0,
            },
    {
        match find_index(&self.cards, card_id) {
            Some(i) => {
                proof { lemma_row_with_at::<Card>(self@.cards, i as int); }
                crate::entity::copy_strings(&self.cards[i].tags)
            },
            None => Vec::new(),
        }
    }

    /// Adds an article; the stored row is returned.
    pub fn create_article(
        &mut self,
        title: String,
        author: String,
        tags: Vec<String>,
        links: Vec<i64>,
        content: String,
        banner_bg: String,
        is_top: bool,
        now: i64,
    ) -> (r: Result<Article, StoreError>)
        requires
            old(self)@.wf(),
        ensures
            final(self)@.wf(),
            old(self)@.has_room() ==> r is Ok && r->Ok_0@ == old(self)@.new_article(
                title@, author@, strs_view(tags@), links@, content@, banner_bg@, is_top, now,
            ) && final(self)@ == old(self)@.article_inserted(
                title@, author@, strs_view(tags@), links@, content@, banner_bg@, is_top, now,
            ),
            !old(self)@.has_room() ==> r is Err && r->Err_0 == StoreError::ConstraintViolation
                && final(self)@ == old(self)@,
    {
        if self.next_id == i64::MAX {
            return Err(StoreError::ConstraintViolation);
        }
        let id = self.next_id;
        let article = Article {
            id: id,
            create_time: now,
            update_time: now,
            title: title,
            author: author,
            tags: tags,
            links: links,
            content: content,
            banner_bg: banner_bg,
            is_top: is_top,
            is_delete: false,
        };
        let out = article.duplicate();
        let ghost added = article@;
        self.articles.push(article);
        self.next_id = id + 1;
        assert(self@.articles =~= old(self)@.articles.push(added));
        proof { lemma_keys_push::<Article>(old(self)@.articles, added, id, self.next_id); }
        self.insert_operation(id, "article", "insert", now);
        Ok(out)
    }

    /// Rewrites the article with id `id`, then pushes its new title and
    /// content into every wrapper of it; the stored row is returned.
    pub fn update_article(
        &mut self,
        id: i64,
        title: String,
        author: String,
        tags: Vec<String>,
        links: Vec<i64>,
        content: String,
        banner_bg: String,
        is_top: bool,
        now: i64,
    ) -> (r: Result<Article, StoreError>)
        requires
            old(self)@.wf(),
        ensures
            final(self)@.wf(),
            !has_key::<Article>(old(self)@.articles, id) ==> r is Err && r->Err_0 == StoreError::NotFound
                && final(self)@ == old(self)@,
            has_key::<Article>(old(self)@.articles, id) ==> r is Ok && r->Ok_0@
                == old(self)@.edited_article(id, title@, author@, strs_view(tags@), links@, content@, banner_bg@, is_top, now)
                && final(self)@ == old(self)@.article_updated(
                id, title@, author@, strs_view(tags@), links@, content@, banner_bg@, is_top, now,
            ),
    {
        match find_index(&self.articles, id) {
            None => Err(StoreError::NotFound),
            Some(i) => {
                proof { lemma_row_with_at::<Article>(self@.articles, i as int); }
                let article = Article {
                    id: self.articles[i].id,
                    create_time: self.articles[i].create_time,
                    update_time: now,
                    title: title,
                    author: author,
                    tags: tags,
                    links: links,
                    content: content,
                    banner_bg: banner_bg,
                    is_top: is_top,
                    is_delete: self.articles[i].is_delete,
                };
                let out = article.duplicate();
                let ghost edited = article@;
                self.articles.set(i, article);
                assert(self@.articles =~= old(self)@.articles.update(i as int, edited));
                proof { lemma_keys_preserved::<Article>(old(self)@.articles, self@.articles, self.next_id); }
                self.mirror(false, id, out.title.as_str(), out.content.as_str(), now, 0, 0, false);
                self.insert_operation(id, "article", "update", now);
                Ok(out)
            },
        }
    }

    /// The article with id `id`, soft-deleted or not.
    pub fn find_article(&self, id: i64) -> (r: Result<Article, StoreError>)
        requires
            self@.wf(),
        ensures
            match r {
                Ok(a) => row_with::<Article>(self@.articles, id) == Some(a@),
                Err(e) => e == StoreError::NotFound && row_with::<Article>(self@.articles, id) is None,
            },
    {
        match find_index(&self.articles, id) {
            Some(i) => {
                proof { lemma_row_with_at::<Article>(self@.articles, i as int); }
                Ok(self.articles[i].duplicate())
            },
            None => Err(StoreError::NotFound),
        }
    }

    /// The articles that are not soft-deleted, latest write first.
    pub fn find_all_articles(&self) -> (r: Vec<Article>)
        ensures
            views(r@).to_multiset() == live::<Article>(self@.articles).to_multiset(),
            sorted_desc::<Article>(views(r@)),
    {
        list_live(&self.articles)
    }

    /// Marks the article with id `id` deleted; returns how many rows changed.
    pub fn delete_article(&mut self, id: i64) -> (r: usize)
        requires
            old(self)@.wf(),
        ensures
            final(self)@.wf(),
            has_key::<Article>(old(self)@.articles, id) ==> r == 1 && final(self)@ == old(self)@.article_deleted(id),
            !has_key::<Article>(old(self)@.articles, id) ==> r == 0 && final(self)@ == old(self)@,
    {
        match find_index(&self.articles, id) {
            Some(i) => {
                proof { lemma_row_with_at::<Article>(self@.articles, i as int); }
                let mut a = self.articles[i].duplicate();
                a.is_delete = true;
                let ghost edited = a@;
                self.articles.set(i, a);
                assert(self@.articles =~= old(self)@.articles.update(i as int, edited));
                proof { lemma_keys_preserved::<Article>(old(self)@.articles, self@.articles, self.next_id); }
                1
            },
            None => 0,
        }
    }

    /// Gives card `card_id`, if there is one, new content.
    fn set_card_content(&mut self, card_id: i64, content: &str, now: i64)
        requires
            old(self)@.wf(),
        ensures
            final(self)@ == old(self)@.with_card_content(card_id, content@, now),
            final(self)@.wf(),
    {
        if let Some(i) = find_index(&self.cards, card_id) {
            proof { lemma_row_with_at::<Card>(self@.cards, i as int); }
            let mut c = self.cards[i].duplicate();
            c.content = content.to_owned();
            c.update_time = now;
            let ghost edited = c@;
            self.cards.set(i, c);
            assert(self@.cards =~= old(self)@.cards.update(i as int, edited));
            proof { lemma_keys_preserved::<Card>(old(self)@.cards, self@.cards, self.next_id); }
        }
    }

    /// Gives article `article_id`, if there is one, a new title and content.
    fn set_article_text(&mut self, article_id: i64, title: &str, content: &str, now: i64)
        requires
            old(self)@.wf(),
        ensures
            final(self)@ == old(self)@.with_article_text(article_id, title@, content@, now),
            final(self)@.wf(),
    {
        if let Some(i) = find_index(&self.articles, article_id) {
            proof { lemma_row_with_at::<Article>(self@.articles, i as int); }
            let mut a = self.articles[i].duplicate();
            a.title = title.to_owned();
            a.content = content.to_owned();
            a.update_time = now;
            let ghost edited = a@;
            self.articles.set(i, a);
            assert(self@.articles =~= old(self)@.articles.update(i as int, edited));
            proof { lemma_keys_preserved::<Article>(old(self)@.articles, self@.articles, self.next_id); }
        }
    }

    /// Adds a document item; its id is returned.
    pub fn create_document_item(
        &mut self,
        title: &str,
        authors: Vec<String>,
        tags: Vec<String>,
        is_directory: bool,
        children: Vec<i64>,
        is_article: bool,
        article_id: i64,
        is_card: bool,
        card_id: i64,
        content: &str,
        banner_bg: &str,
        icon: &str,
        parents: Vec<i64>,
        now: i64,
    ) -> (r: Result<i64, StoreError>)
        requires
            old(self)@.wf(),
        ensures
            final(self)@.wf(),
            old(self)@.has_room() ==> r == Ok::<i64, StoreError>(old(self).next_id) && final(self)@
                == old(self)@.item_inserted(
                DocumentItemView {
                    id: old(self).next_id,
                    create_time: now,
                    update_time: now,
                    title: title@,
                    authors: strs_view(authors@),
                    tags: strs_view(tags@),
                    is_directory: is_directory,
                    children: children@,
                    is_article: is_article,
                    article_id: article_id,
                    is_card: is_card,
                    card_id: card_id,
                    content: content@,
                    banner_bg: banner_bg@,
                    icon: icon@,
                    is_delete: false,
                    parents: parents@,
                },
            ),
            !old(self)@.has_room() ==> r == Err::<i64, StoreError>(StoreError::ConstraintViolation)
                && final(self)@ == old(self)@,
    {
        if self.next_id == i64::MAX {
            return Err(StoreError::ConstraintViolation);
        }
        let id = self.next_id;
        let d = DocumentItem {
            id: id,
            create_time: now,
            update_time: now,
            title: title.to_owned(),
            authors: authors,
            tags: tags,
            is_directory: is_directory,
            children: children,
            is_article: is_article,
            article_id: article_id,
            is_card: is_card,
            card_id: card_id,
            content: content.to_owned(),
            banner_bg: banner_bg.to_owned(),
            icon: icon.to_owned(),
            is_delete: false,
            parents: parents,
        };
        let ghost added = d@;
        self.document_items.push(d);
        self.next_id = id + 1;
        assert(self@.document_items =~= old(self)@.document_items.push(added));
        proof { lemma_keys_push::<DocumentItem>(old(self)@.document_items, added, id, self.next_id); }
        self.insert_operation(id, "document_item", "insert", now);
        Ok(id)
    }

    /// The document item with id `id`, soft-deleted or not.
    pub fn get_document_item(&self, id: i64) -> (r: Result<DocumentItem, StoreError>)
        requires
            self@.wf(),
        ensures
            match r {
                Ok(d) => row_with::<DocumentItem>(self@.document_items, id) == Some(d@),
                Err(e) => e == StoreError::NotFound && row_with::<DocumentItem>(self@.document_items, id) is None,
            },
    {
        match find_index(&self.document_items, id) {
            Some(i) => {
                proof { lemma_row_with_at::<DocumentItem>(self@.document_items, i as int); }
                Ok(self.document_items[i].duplicate())
            },
            None => Err(StoreError::NotFound),
        }
    }

    /// The document items that are not soft-deleted, in table order.
    pub fn get_all_document_items(&self) -> (r: Vec<DocumentItem>)
        ensures
            views(r@) == live::<DocumentItem>(self@.document_items),
    {
        live_rows(&self.document_items)
    }

    /// Marks the document item with id `id` deleted; returns how many rows
    /// changed.
    pub fn delete_document_item(&mut self, id: i64) -> (r: usize)
        requires
            old(self)@.wf(),
        ensures
            final(self)@.wf(),
            has_key::<DocumentItem>(old(self)@.document_items, id) ==> r == 1 && final(self)@
                == old(self)@.item_deleted(id),
            !has_key::<DocumentItem>(old(self)@.document_items, id) ==> r == 0 && final(self)@ == old(self)@,
    {
        match find_index(&self.document_items, id) {
            Some(i) => {
                proof { lemma_row_with_at::<DocumentItem>(self@.document_items, i as int); }
                let mut d = self.document_items[i].duplicate();
                d.is_delete = true;
                let ghost edited = d@;
                self.document_items.set(i, d);
                assert(self@.document_items =~= old(self)@.document_items.update(i as int, edited));
                proof { lemma_keys_preserved::<DocumentItem>(old(self)@.document_items, self@.document_items, self.next_id); }
                1
            },
            None => 0,
        }
    }

    /// Rewrites the document item with id `id`. Where it wraps a card or an
    /// article, that entity takes the new content (and an article the new
    /// title), and so does every other wrapper of it. The stored row is
    /// returned.
    pub fn update_document_item(
        &mut self,
        id: i64,
        title: &str,
        authors: Vec<String>,
        tags: Vec<String>,
        is_directory: bool,
        children: Vec<i64>,
        is_article: bool,
        article_id: i64,
        is_card: bool,
        card_id: i64,
        content: &str,
        banner_bg: &str,
        icon: &str,
        parents: Vec<i64>,
        now: i64,
    ) -> (r: Result<DocumentItem, StoreError>)
        requires
            old(self)@.wf(),
        ensures
            final(self)@.wf(),
            !has_key::<DocumentItem>(old(self)@.document_items, id) ==> r is Err && r->Err_0 == StoreError::NotFound
                && final(self)@ == old(self)@,
            has_key::<DocumentItem>(old(self)@.document_items, id) ==> ({
                let prior = old(self)@.document_items[index_of_key::<DocumentItem>(old(self)@.document_items, id)];
                let e = DocumentItemView {
                    id: id,
                    create_time: prior.create_time,
                    update_time: now,
                    title: title@,
                    authors: strs_view(authors@),
                    tags: strs_view(tags@),
                    is_directory: is_directory,
                    children: children@,
                    is_article: is_article,
                    article_id: article_id,
                    is_card: is_card,
                    card_id: card_id,
                    content: content@,
                    banner_bg: banner_bg@,
                    icon: icon@,
                    is_delete: prior.is_delete,
                    parents: parents@,
                };
                r is Ok && r->Ok_0@ == e && final(self)@ == old(self)@.item_updated(e)
            }),
    {
        match find_index(&self.document_items, id) {
            None => Err(StoreError::NotFound),
            Some(i) => {
                proof { lemma_row_with_at::<DocumentItem>(self@.document_items, i as int); }
                let d = DocumentItem {
                    id: id,
                    create_time: self.document_items[i].create_time,
                    update_time: now,
                    title: title.to_owned(),
                    authors: authors,
                    tags: tags,
                    is_directory: is_directory,
                    children: children,
                    is_article: is_article,
                    article_id: article_id,
                    is_card: is_card,
                    card_id: card_id,
                    content: content.to_owned(),
                    banner_bg: banner_bg.to_owned(),
                    icon: icon.to_owned(),
                    is_delete: self.document_items[i].is_delete,
                    parents: parents,
                };
                let out = d.duplicate();
                let ghost edited = d@;
                self.document_items.set(i, d);
                assert(self@.document_items =~= old(self)@.document_items.update(i as int, edited));
                proof { lemma_keys_preserved::<DocumentItem>(old(self)@.document_items, self@.document_items, self.next_id); }
                self.insert_operation(id, "document_item", "update", now);
                if is_card && card_id > 0 {
                    self.set_card_content(card_id, content, now);
                    self.mirror(true, card_id, title, content, now, id, 0, false);
                }
                if is_article && article_id > 0 {
                    self.set_article_text(article_id, title, content, now);
                    self.mirror(false, article_id, title, content, now, id, 0, false);
                }
                Ok(out)
            },
        }
    }

    /// Adds a project item; the stored row is returned.
    pub fn create_project_item(
        &mut self,
        title: String,
        content: String,
        children: Vec<i64>,
        parents: Vec<i64>,
        projects: Vec<i64>,
        ref_type: String,
        ref_id: i64,
        now: i64,
    ) -> (r: Result<ProjectItem, StoreError>)
        requires
            old(self)@.wf(),
        ensures
            final(self)@.wf(),
            old(self)@.has_room() ==> ({
                let p = ProjectItemView {
                    id: old(self).next_id,
                    create_time: now,
                    update_time: now,
                    title: title@,
                    content: content@,
                    children: children@,
                    parents: parents@,
                    projects: projects@,
                    ref_type: ref_type@,
                    ref_id: ref_id,
                };
                r is Ok && r->Ok_0@ == p && final(self)@ == old(self)@.project_item_inserted(p)
            }),
            !old(self)@.has_room() ==> r is Err && r->Err_0 == StoreError::ConstraintViolation
                && final(self)@ == old(self)@,
    {
        if self.next_id == i64::MAX {
            return Err(StoreError::ConstraintViolation);
        }
        let id = self.next_id;
        let p = ProjectItem {
            id: id,
            create_time: now,
            update_time: now,
            title: title,
            content: content,
            children: children,
            parents: parents,
            projects: projects,
            ref_type: ref_type,
            ref_id: ref_id,
        };
        let out = p.duplicate();
        let ghost added = p@;
        self.project_items.push(p);
        self.next_id = id + 1;
        assert(self@.project_items =~= old(self)@.project_items.push(added));
        proof { lemma_keys_push::<ProjectItem>(old(self)@.project_items, added, id, self.next_id); }
        self.insert_operation(id, "project_item", "insert", now);
        Ok(out)
    }

    /// The project item with id `id`.
    pub fn get_project_item_by_id(&self, id: i64) -> (r: Result<ProjectItem, StoreError>)
        requires
            self@.wf(),
        ensures
            match r {
                Ok(p) => row_with::<ProjectItem>(self@.project_items, id) == Some(p@),
                Err(e) => e == StoreError::NotFound && row_with::<ProjectItem>(self@.project_items, id) is None,
            },
    {
        match find_index(&self.project_items, id) {
            Some(i) => {
                proof { lemma_row_with_at::<ProjectItem>(self@.project_items, i as int); }
                Ok(self.project_items[i].duplicate())
            },
            None => Err(StoreError::NotFound),
        }
    }

    /// Removes the project item with id `id` and logs it; returns how many
    /// rows went.
    pub fn delete_project_item(&mut self, id: i64, now: i64) -> (r: usize)
        requires
            old(self)@.wf(),
        ensures
            final(self)@.wf(),
            has_key::<ProjectItem>(old(self)@.project_items, id) ==> r == 1 && final(self)@
                == old(self)@.project_item_deleted(id, now),
            !has_key::<ProjectItem>(old(self)@.project_items, id) ==> r == 0 && final(self)@ == old(self)@,
    {
        match find_index(&self.project_items, id) {
            Some(i) => {
                proof { lemma_row_with_at::<ProjectItem>(self@.project_items, i as int); }
                self.project_items.remove(i);
                assert(self@.project_items =~= old(self)@.project_items.remove(i as int));
                proof { lemma_keys_remove::<ProjectItem>(old(self)@.project_items, i as int, self.next_id); }
                if self.next_id < i64::MAX {
                    self.insert_operation(id, "project_item", "delete", now);
                }
                1
            },
            None => 0,
        }
    }

    /// Rewrites the project item with id `id`. Where it is bound to a card or
    /// an article, that entity takes the new content (and an article the new
    /// title), and so does every other wrapper of it. The stored row is
    /// returned.
    pub fn update_project_item(
        &mut self,
        id: i64,
        title: String,
        content: String,
        children: Vec<i64>,
        parents: Vec<i64>,
        projects: Vec<i64>,
        ref_type: String,
        ref_id: i64,
        now: i64,
    ) -> (r: Result<ProjectItem, StoreError>)
        requires
            old(self)@.wf(),
        ensures
            final(self)@.wf(),
            !has_key::<ProjectItem>(old(self)@.project_items, id) ==> r is Err && r->Err_0 == StoreError::NotFound
                && final(self)@ == old(self)@,
            has_key::<ProjectItem>(old(self)@.project_items, id) ==> ({
                let prior = old(self)@.project_items[index_of_key::<ProjectItem>(old(self)@.project_items, id)];
                let e = ProjectItemView {
                    id: id,
                    create_time: prior.create_time,
                    update_time: now,
                    title: title@,
                    content: content@,
                    children: children@,
                    parents: parents@,
                    projects: projects@,
                    ref_type: ref_type@,
                    ref_id: ref_id,
                };
                r is Ok && r->Ok_0@ == e && final(self)@ == old(self)@.project_item_updated(e)
            }),
    {
        match find_index(&self.project_items, id) {
            None => Err(StoreError::NotFound),
            Some(i) => {
                proof { lemma_row_with_at::<ProjectItem>(self@.project_items, i as int); }
                let p = ProjectItem {
                    id: id,
                    create_time: self.project_items[i].create_time,
                    update_time: now,
                    title: title,
                    content: content,
                    children: children,
                    parents: parents,
                    projects: projects,
                    ref_type: ref_type,
                    ref_id: ref_id,
                };
                let out = p.duplicate();
                let ghost edited = p@;
                self.project_items.set(i, p);
                assert(self@.project_items =~= old(self)@.project_items.update(i as int, edited));
                proof { lemma_keys_preserved::<ProjectItem>(old(self)@.project_items, self@.project_items, self.next_id); }
                self.insert_operation(id, "project_item", "update", now);
                let card_s = "card".to_owned();
                let article_s = "article".to_owned();
                if ref_id != 0 && out.ref_type == card_s {
                    self.set_card_content(ref_id, out.content.as_str(), now);
                    self.mirror(true, ref_id, out.title.as_str(), out.content.as_str(), now, 0, id, true);
                } else if ref_id != 0 && out.ref_type == article_s {
                    self.set_article_text(ref_id, out.title.as_str(), out.content.as_str(), now);
                    self.mirror(false, ref_id, out.title.as_str(), out.content.as_str(), now, 0, id, true);
                }
                Ok(out)
            },
        }
    }

    /// Sets the banner of the article with id `id`; returns how many rows
    /// changed.
    pub fn update_banner_bg(&mut self, id: i64, banner_bg: String, now: i64) -> (r: usize)
        requires
            old(self)@.wf(),
        ensures
            final(self)@.wf(),
            has_key::<Article>(old(self)@.articles, id) ==> r == 1 && final(self)@ == (StoreView {
                articles: old(self)@.articles.update(
                    index_of_key::<Article>(old(self)@.articles, id),
                    ArticleView {
                        banner_bg: banner_bg@,
                        update_time: now,
                        ..old(self)@.articles[index_of_key::<Article>(old(self)@.articles, id)]
                    },
                ),
                ..old(self)@
            }),
            !has_key::<Article>(old(self)@.articles, id) ==> r == 0 && final(self)@ == old(self)@,
    {
        match find_index(&self.articles, id) {
            Some(i) => {
                proof { lemma_row_with_at::<Article>(self@.articles, i as int); }
                let mut a = self.articles[i].duplicate();
                a.banner_bg = banner_bg;
                a.update_time = now;
                let ghost edited = a@;
                self.articles.set(i, a);
                assert(self@.articles =~= old(self)@.articles.update(i as int, edited));
                proof { lemma_keys_preserved::<Article>(old(self)@.articles, self@.articles, self.next_id); }
                1
            },
            None => 0,
        }
    }

    /// Pins or unpins the article with id `id`; returns how many rows
    /// changed.
    pub fn update_is_top(&mut self, id: i64, is_top: bool, now: i64) -> (r: usize)
        requires
            old(self)@.wf(),
        ensures
            final(self)@.wf(),
            has_key::<Article>(old(self)@.articles, id) ==> r == 1 && final(self)@ == (StoreView {
                articles: old(self)@.articles.update(
                    index_of_key::<Article>(old(self)@.articles, id),
                    ArticleView {
                        is_top: is_top,
                        update_time: now,
                        ..old(self)@.articles[index_of_key::<Article>(old(self)@.articles, id)]
                    },
                ),
                ..old(self)@
            }),
            !has_key::<Article>(old(self)@.articles, id) ==> r == 0 && final(self)@ == old(self)@,
    {
        match find_index(&self.articles, id) {
            Some(i) => {
                proof { lemma_row_with_at::<Article>(self@.articles, i as int); }
                let mut a = self.articles[i].duplicate();
                a.is_top = is_top;
                a.update_time = now;
                let ghost edited = a@;
                self.articles.set(i, a);
                assert(self@.articles =~= old(self)@.articles.update(i as int, edited));
                proof { lemma_keys_preserved::<Article>(old(self)@.articles, self@.articles, self.next_id); }
                1
            },
            None => 0,
        }
    }

    /// The document items with the given ids, in that order; `NotFound` if
    /// any id has no item.
    pub fn get_document_items_by_ids(&self, ids: &Vec<i64>) -> (r: Result<Vec<DocumentItem>, StoreError>)
        requires
            self@.wf(),
        ensures
            match r {
                Ok(v) => v@.len() == ids@.len() && forall|k: int| 0 <= k < ids@.len() ==> row_with::<DocumentItem>(
                    self@.document_items,
                    ids@[k],
                ) == Some(#[trigger] v@[k]@),
                Err(e) => e == StoreError::NotFound && exists|k: int| 0 <= k < ids@.len() && row_with::<DocumentItem>(
                    self@.document_items,
                    #[trigger] ids@[k],
                ) is None,
            },
    {
        let mut out: Vec<DocumentItem> = Vec::new();
        let mut k: usize = 0;
        while k < ids.len()
            invariant
                self@.wf(),
                k <= ids@.len(),
                out@.len() == k,
                forall|m: int| 0 <= m < k ==> row_with::<DocumentItem>(self@.document_items, ids@[m]) == Some(#[trigger] out@[m]@),
            decreases ids@.len() - k,
        {
            match self.get_document_item(ids[k]) {
                Ok(d) => {
                    out.push(d);
                },
                Err(e) => {
                    return Err(e);
                },
            }
            k = k + 1;
        }
        Ok(out)
    }

    /// The project items bound to `ref_type` / `ref_id`, in table order.
    pub fn get_project_items_by_ref(&self, ref_type: &str, ref_id: i64) -> (r: Vec<ProjectItem>)
        ensures
            views(r@) == self@.project_items.filter(|p: ProjectItemView| p.ref_type == ref_type@ && p.ref_id == ref_id),
    {
        let ghost all = self@.project_items;
        let ghost pred = |p: ProjectItemView| p.ref_type == ref_type@ && p.ref_id == ref_id;
        let wanted = ref_type.to_owned();
        let mut out: Vec<ProjectItem> = Vec::new();
        let mut i: usize = 0;
        while i < self.project_items.len()
            invariant
                i <= all.len(),
                all == self@.project_items,
                wanted@ == ref_type@,
                pred == (|p: ProjectItemView| p.ref_type == ref_type@ && p.ref_id == ref_id),
                views(out@) == all.take(i as int).filter(pred),
            decreases all.len() - i,
        {
            assert(all.take(i + 1).drop_last() =~= all.take(i as int));
            reveal(Seq::filter);
            let ghost before = views(out@);
            if self.project_items[i].ref_type == wanted && self.project_items[i].ref_id == ref_id {
                out.push(self.project_items[i].duplicate());
                assert(views(out@) =~= before.push(all[i as int]));
            }
            i = i + 1;
        }
        assert(all.take(all.len() as int) =~= all);
        out
    }

    /// Adds a document; its id is returned.
    pub fn create_document(
        &mut self,
        title: &str,
        desc: &str,
        authors: Vec<String>,
        children: Vec<i64>,
        tags: Vec<String>,
        links: Vec<i64>,
        content: &str,
        banner_bg: &str,
        icon: &str,
        now: i64,
    ) -> (r: Result<i64, StoreError>)
        requires
            old(self)@.wf(),
        ensures
            final(self)@.wf(),
            old(self)@.has_room() ==> r == Ok::<i64, StoreError>(old(self).next_id) && final(self)@ == (StoreView {
                documents: old(self)@.documents.push(
                    DocumentView {
                        id: old(self).next_id,
                        create_time: now,
                        update_time: now,
                        title: title@,
                        desc: desc@,
                        authors: strs_view(authors@),
                        children: children@,
                        tags: strs_view(tags@),
                        links: links@,
                        content: content@,
                        banner_bg: banner_bg@,
                        icon: icon@,
                        is_top: false,
                        is_delete: false,
                    },
                ),
                next_id: (old(self).next_id + 1) as i64,
                ..old(self)@
            }).logged("document"@, "insert"@, old(self).next_id, now),
            !old(self)@.has_room() ==> r == Err::<i64, StoreError>(StoreError::ConstraintViolation)
                && final(self)@ == old(self)@,
    {
        if self.next_id == i64::MAX {
            return Err(StoreError::ConstraintViolation);
        }
        let id = self.next_id;
        let d = Document {
            id: id,
            create_time: now,
            update_time: now,
            title: title.to_owned(),
            desc: desc.to_owned(),
            authors: authors,
            children: children,
            tags: tags,
            links: links,
            content: content.to_owned(),
            banner_bg: banner_bg.to_owned(),
            icon: icon.to_owned(),
            is_top: false,
            is_delete: false,
        };
        let ghost added = d@;
        self.documents.push(d);
        self.next_id = id + 1;
        assert(self@.documents =~= old(self)@.documents.push(added));
        proof { lemma_keys_push::<Document>(old(self)@.documents, added, id, self.next_id); }
        self.insert_operation(id, "document", "insert", now);
        Ok(id)
    }

    /// The document with id `id`, soft-deleted or not.
    pub fn get_document(&self, id: i64) -> (r: Result<Document, StoreError>)
        requires
            self@.wf(),
        ensures
            match r {
                Ok(d) => row_with::<Document>(self@.documents, id) == Some(d@),
                Err(e) => e == StoreError::NotFound && row_with::<Document>(self@.documents, id) is None,
            },
    {
        match find_index(&self.documents, id) {
            Some(i) => {
                proof { lemma_row_with_at::<Document>(self@.documents, i as int); }
                Ok(self.documents[i].duplicate())
            },
            None => Err(StoreError::NotFound),
        }
    }

    /// Rewrites the document with id `id`; returns how many rows were
    /// written.
    pub fn update_document(
        &mut self,
        id: i64,
        title: &str,
        desc: &str,
        authors: Vec<String>,
        children: Vec<i64>,
        tags: Vec<String>,
        links: Vec<i64>,
        content: &str,
        banner_bg: &str,
        icon: &str,
        is_top: bool,
        now: i64,
    ) -> (r: Result<usize, StoreError>)
        requires
            old(self)@.wf(),
        ensures
            final(self)@.wf(),
            !has_key::<Document>(old(self)@.documents, id) ==> r == Ok::<usize, StoreError>(0) && final(self)@ == old(self)@,
            has_key::<Document>(old(self)@.documents, id) ==> r == Ok::<usize, StoreError>(1)
                && final(self)@ == (StoreView {
                documents: old(self)@.documents.update(
                    index_of_key::<Document>(old(self)@.documents, id),
                    DocumentView {
                        update_time: now,
                        title: title@,
                        desc: desc@,
                        authors: strs_view(authors@),
                        children: children@,
                        tags: strs_view(tags@),
                        links: links@,
                        content: content@,
                        banner_bg: banner_bg@,
                        icon: icon@,
                        is_top: is_top,
                        ..old(self)@.documents[index_of_key::<Document>(old(self)@.documents, id)]
                    },
                ),
                ..old(self)@
            }).logged("document"@, "update"@, id, now),
    {
        match find_index(&self.documents, id) {
            None => Ok(0),
            Some(i) => {
                proof { lemma_row_with_at::<Document>(self@.documents, i as int); }
                let d = Document {
                    id: id,
                    create_time: self.documents[i].create_time,
                    update_time: now,
                    title: title.to_owned(),
                    desc: desc.to_owned(),
                    authors: authors,
                    children: children,
                    tags: tags,
                    links: links,
                    content: content.to_owned(),
                    banner_bg: banner_bg.to_owned(),
                    icon: icon.to_owned(),
                    is_top: is_top,
                    is_delete: self.documents[i].is_delete,
                };
                let ghost edited = d@;
                self.documents.set(i, d);
                assert(self@.documents =~= old(self)@.documents.update(i as int, edited));
                proof { lemma_keys_preserved::<Document>(old(self)@.documents, self@.documents, self.next_id); }
                self.insert_operation(id, "document", "update", now);
                Ok(1)
            },
        }
    }

    /// Marks the document with id `id` deleted; returns how many rows
    /// changed.
    pub fn delete_document(&mut self, id: i64) -> (r: usize)
        requires
            old(self)@.wf(),
        ensures
            final(self)@.wf(),
            has_key::<Document>(old(self)@.documents, id) ==> r == 1 && final(self)@ == (StoreView {
                documents: old(self)@.documents.update(
                    index_of_key::<Document>(old(self)@.documents, id),
                    DocumentView { is_delete: true, ..old(self)@.documents[index_of_key::<Document>(old(self)@.documents, id)] },
                ),
                ..old(self)@
            }),
            !has_key::<Document>(old(self)@.documents, id) ==> r == 0 && final(self)@ == old(self)@,
    {
        match find_index(&self.documents, id) {
            Some(i) => {
                proof { lemma_row_with_at::<Document>(self@.documents, i as int); }
                let mut d = self.documents[i].duplicate();
                d.is_delete = true;
                let ghost edited = d@;
                self.documents.set(i, d);
                assert(self@.documents =~= old(self)@.documents.update(i as int, edited));
                proof { lemma_keys_preserved::<Document>(old(self)@.documents, self@.documents, self.next_id); }
                1
            },
            None => 0,
        }
    }

    /// The documents that are not soft-deleted, latest write first, each
    /// with the number of distinct document items below it. A count past
    /// `i64::MAX` is refused as a constraint violation.
    pub fn get_document_list(&self) -> (r: Result<Vec<DocumentWithCount>, StoreError>)
        ensures
            match r {
                Ok(v) => {
                    &&& v@.map_values(|w: DocumentWithCount| w.document@).to_multiset() == live::<Document>(
                        self@.documents,
                    ).to_multiset()
                    &&& sorted_desc::<Document>(v@.map_values(|w: DocumentWithCount| w.document@))
                    &&& forall|k: int| 0 <= k < v@.len() ==> (#[trigger] v@[k]).count == reach_set(
                        self@.document_items,
                        v@[k].document.children@,
                        true,
                    ).len()
                },
                Err(e) => e == StoreError::ConstraintViolation && exists|v: DocumentView| #[trigger] live::<Document>(
                    self@.documents,
                ).contains(v) && reach_set(self@.document_items, v.children, true).len() > i64::MAX,
            },
    {
        let docs = list_live(&self.documents);
        let ghost dv = views(docs@);
        assert(self@.document_items == items_view(self.document_items@));
        let mut out: Vec<DocumentWithCount> = Vec::new();
        let mut i: usize = 0;
        while i < docs.len()
            invariant
                i <= docs@.len(),
                dv == views(docs@),
                dv.to_multiset() == live::<Document>(self@.documents).to_multiset(),
                self@.document_items == items_view(self.document_items@),
                out@.map_values(|w: DocumentWithCount| w.document@) == dv.take(i as int),
                forall|k: int| 0 <= k < out@.len() ==> (#[trigger] out@[k]).count == reach_set(
                    self@.document_items,
                    out@[k].document.children@,
                    true,
                ).len(),
            decreases docs@.len() - i,
        {
            let n = get_document_children_count(&self.document_items, &docs[i]);
            let n64 = n as u64;
            if n64 > 9223372036854775807u64 {
                proof {
                    broadcast use vstd::seq_lib::group_to_multiset_ensures;
                    assert(dv.contains(dv[i as int]));
                    assert(dv.to_multiset().count(dv[i as int]) > 0);
                    assert(live::<Document>(self@.documents).contains(dv[i as int]));
                    assert(dv[i as int].children == docs@[i as int].children@);
                    assert(reach_set(self@.document_items, dv[i as int].children, true).len() > i64::MAX);
                }
                return Err(StoreError::ConstraintViolation);
            }
            let ghost before = out@.map_values(|w: DocumentWithCount| w.document@);
            out.push(DocumentWithCount { document: docs[i].duplicate(), count: n64 as i64 });
            assert(out@.map_values(|w: DocumentWithCount| w.document@) =~= before.push(dv[i as int]));
            assert(dv.take(i + 1) =~= dv.take(i as int).push(dv[i as int]));
            i = i + 1;
        }
        assert(dv.take(dv.len() as int) =~= dv);
        Ok(out)
    }

    /// Adds a project; the stored row is returned.
    pub fn create_project(&mut self, title: String, desc: String, children: Vec<i64>, now: i64) -> (r: Result<Project, StoreError>)
        requires
            old(self)@.wf(),
        ensures
            final(self)@.wf(),
            old(self)@.has_room() ==> ({
                let p = ProjectView {
                    id: old(self).next_id,
                    create_time: now,
                    update_time: now,
                    title: title@,
                    children: children@,
                    desc: desc@,
                };
                r is Ok && r->Ok_0@ == p && final(self)@ == (StoreView {
                    projects: old(self)@.projects.push(p),
                    next_id: (old(self).next_id + 1) as i64,
                    ..old(self)@
                }).logged("project"@, "insert"@, old(self).next_id, now)
            }),
            !old(self)@.has_room() ==> r is Err && r->Err_0 == StoreError::ConstraintViolation
                && final(self)@ == old(self)@,
    {
        if self.next_id == i64::MAX {
            return Err(StoreError::ConstraintViolation);
        }
        let id = self.next_id;
        let p = Project { id: id, create_time: now, update_time: now, title: title, children: children, desc: desc };
        let out = p.duplicate();
        let ghost added = p@;
        self.projects.push(p);
        self.next_id = id + 1;
        assert(self@.projects =~= old(self)@.projects.push(added));
        proof { lemma_keys_push::<Project>(old(self)@.projects, added, id, self.next_id); }
        self.insert_operation(id, "project", "insert", now);
        Ok(out)
    }

    /// The project with id `id`.
    pub fn get_project_by_id(&self, id: i64) -> (r: Result<Project, StoreError>)
        requires
            self@.wf(),
        ensures
            match r {
                Ok(p) => row_with::<Project>(self@.projects, id) == Some(p@),
                Err(e) => e == StoreError::NotFound && row_with::<Project>(self@.projects, id) is None,
            },
    {
        match find_index(&self.projects, id) {
            Some(i) => {
                proof { lemma_row_with_at::<Project>(self@.projects, i as int); }
                Ok(self.projects[i].duplicate())
            },
            None => Err(StoreError::NotFound),
        }
    }

    /// Every project, latest write first.
    pub fn get_project_list(&self) -> (r: Vec<Project>)
        ensures
            views(r@).to_multiset() == live::<Project>(self@.projects).to_multiset(),
            sorted_desc::<Project>(views(r@)),
    {
        list_live(&self.projects)
    }

    /// Rewrites the project with id `id`; the stored row is returned.
    pub fn update_project(&mut self, id: i64, title: String, desc: String, children: Vec<i64>, now: i64) -> (r: Result<Project, StoreError>)
        requires
            old(self)@.wf(),
        ensures
            final(self)@.wf(),
            !has_key::<Project>(old(self)@.projects, id) ==> r is Err && r->Err_0 == StoreError::NotFound
                && final(self)@ == old(self)@,
            has_key::<Project>(old(self)@.projects, id) ==> ({
                let i = index_of_key::<Project>(old(self)@.projects, id);
                let p = ProjectView { update_time: now, title: title@, children: children@, desc: desc@, ..old(self)@.projects[i] };
                r is Ok && r->Ok_0@ == p && final(self)@ == (StoreView {
                    projects: old(self)@.projects.update(i, p),
                    ..old(self)@
                }).logged("project"@, "update"@, id, now)
            }),
    {
        match find_index(&self.projects, id) {
            None => Err(StoreError::NotFound),
            Some(i) => {
                proof { lemma_row_with_at::<Project>(self@.projects, i as int); }
                let p = Project {
                    id: id,
                    create_time: self.projects[i].create_time,
                    update_time: now,
                    title: title,
                    children: children,
                    desc: desc,
                };
                let out = p.duplicate();
                let ghost edited = p@;
                self.projects.set(i, p);
                assert(self@.projects =~= old(self)@.projects.update(i as int, edited));
                proof { lemma_keys_preserved::<Project>(old(self)@.projects, self@.projects, self.next_id); }
                self.insert_operation(id, "project", "update", now);
                Ok(out)
            },
        }
    }

    /// Removes the project with id `id` and logs it where ids remain;
    /// returns how many rows went.
    pub fn delete_project(&mut self, id: i64, now: i64) -> (r: usize)
        requires
            old(self)@.wf(),
        ensures
            final(self)@.wf(),
            has_key::<Project>(old(self)@.projects, id) ==> r == 1 && final(self)@ == ({
                let s1 = StoreView {
                    projects: old(self)@.projects.remove(index_of_key::<Project>(old(self)@.projects, id)),
                    ..old(self)@
                };
                if old(self).next_id < i64::MAX {
                    s1.logged("project"@, "delete"@, id, now)
                } else {
                    s1
                }
            }),
            !has_key::<Project>(old(self)@.projects, id) ==> r == 0 && final(self)@ == old(self)@,
    {
        match find_index(&self.projects, id) {
            Some(i) => {
                proof { lemma_row_with_at::<Project>(self@.projects, i as int); }
                self.projects.remove(i);
                assert(self@.projects =~= old(self)@.projects.remove(i as int));
                proof { lemma_keys_remove::<Project>(old(self)@.projects, i as int, self.next_id); }
                if self.next_id < i64::MAX {
                    self.insert_operation(id, "project", "delete", now);
                }
                1
            },
            None => 0,
        }
    }

    /// How many project items belong to project `project_id`.
    pub fn get_project_item_count_in_project(&self, project_id: i64) -> (r: usize)
        ensures
            r == self@.project_items.filter(|p: ProjectItemView| p.projects.contains(project_id)).len(),
    {
        let ghost all = self@.project_items;
        let ghost pred = |p: ProjectItemView| p.projects.contains(project_id);
        let mut n: usize = 0;
        let mut i: usize = 0;
        while i < self.project_items.len()
            invariant
                i <= all.len(),
                all == self@.project_items,
                pred == (|p: ProjectItemView| p.projects.contains(project_id)),
                n == all.take(i as int).filter(pred).len(),
                n <= i,
            decreases all.len() - i,
        {
            assert(all.take(i + 1).drop_last() =~= all.take(i as int));
            reveal(Seq::filter);
            if contains_id(&self.project_items[i].projects, project_id) {
                n = n + 1;
            }
            i = i + 1;
        }
        assert(all.take(all.len() as int) =~= all);
        n
    }

    /// The project items that do not belong to project `project_id`, in
    /// table order.
    pub fn get_all_project_items_not_in_project(&self, project_id: i64) -> (r: Vec<ProjectItem>)
        ensures
            views(r@) == self@.project_items.filter(|p: ProjectItemView| !p.projects.contains(project_id)),
    {
        let ghost all = self@.project_items;
        let ghost pred = |p: ProjectItemView| !p.projects.contains(project_id);
        let mut out: Vec<ProjectItem> = Vec::new();
        let mut i: usize = 0;
        while i < self.project_items.len()
            invariant
                i <= all.len(),
                all == self@.project_items,
                pred == (|p: ProjectItemView| !p.projects.contains(project_id)),
                views(out@) == all.take(i as int).filter(pred),
            decreases all.len() - i,
        {
            assert(all.take(i + 1).drop_last() =~= all.take(i as int));
            reveal(Seq::filter);
            let ghost before = views(out@);
            if !contains_id(&self.project_items[i].projects, project_id) {
                out.push(self.project_items[i].duplicate());
                assert(views(out@) =~= before.push(all[i as int]));
            }
            i = i + 1;
        }
        assert(all.take(all.len() as int) =~= all);
        out
    }

    /// The project items that belong to no project, in table order.
    pub fn get_project_items_not_in_any_project(&self) -> (r: Vec<ProjectItem>)
        ensures
            views(r@) == self@.project_items.filter(|p: ProjectItemView| p.projects.len() == 0),
    {
        let ghost all = self@.project_items;
        let ghost pred = |p: ProjectItemView| p.projects.len() == 0;
        let mut out: Vec<ProjectItem> = Vec::new();
        let mut i: usize = 0;
        while i < self.project_items.len()
            invariant
                i <= all.len(),
                all == self@.project_items,
                pred == (|p: ProjectItemView| p.projects.len() == 0),
                views(out@) == all.take(i as int).filter(pred),
            decreases all.len() - i,
        {
            assert(all.take(i + 1).drop_last() =~= all.take(i as int));
            reveal(Seq::filter);
            let ghost before = views(out@);
            if self.project_items[i].projects.len() == 0 {
                out.push(self.project_items[i].duplicate());
                assert(views(out@) =~= before.push(all[i as int]));
            }
            i = i + 1;
        }
        assert(all.take(all.len() as int) =~= all);
        out
    }

    /// Whether the project item with id `id` belongs to no project.
    pub fn is_project_item_not_in_any_project(&self, id: i64) -> (r: Result<bool, StoreError>)
        requires
            self@.wf(),
        ensures
            match r {
                Ok(b) => row_with::<ProjectItem>(self@.project_items, id) is Some && b == (row_with::<ProjectItem>(
                    self@.project_items,
                    id,
                )->Some_0.projects.len() == 0),
                Err(e) => e == StoreError::NotFound && row_with::<ProjectItem>(self@.project_items, id) is None,
            },
    {
        match find_index(&self.project_items, id) {
            Some(i) => {
                proof { lemma_row_with_at::<ProjectItem>(self@.project_items, i as int); }
                Ok(self.project_items[i].projects.len() == 0)
            },
            None => Err(StoreError::NotFound),
        }
    }

    /// Adds a time record; the stored row is returned.
    pub fn create_time_record(
        &mut self,
        date: &str,
        cost: i64,
        content: &str,
        event_type: &str,
        time_type: &str,
        now: i64,
    ) -> (r: Result<TimeRecord, StoreError>)
        requires
            old(self)@.wf(),
        ensures
            final(self)@.wf(),
            old(self)@.has_room() ==> ({
                let t = TimeRecordView {
                    id: old(self).next_id,
                    date: date@,
                    cost: cost,
                    content: content@,
                    event_type: event_type@,
                    time_type: time_type@,
                };
                r is Ok && r->Ok_0@ == t && final(self)@ == (StoreView {
                    time_records: old(self)@.time_records.push(t),
                    next_id: (old(self).next_id + 1) as i64,
                    ..old(self)@
                }).logged("time_record"@, "insert"@, old(self).next_id, now)
            }),
            !old(self)@.has_room() ==> r is Err && r->Err_0 == StoreError::ConstraintViolation
                && final(self)@ == old(self)@,
    {
        if self.next_id == i64::MAX {
            return Err(StoreError::ConstraintViolation);
        }
        let id = self.next_id;
        let t = TimeRecord {
            id: id,
            date: date.to_owned(),
            cost: cost,
            content: content.to_owned(),
            event_type: event_type.to_owned(),
            time_type: time_type.to_owned(),
        };
        let out = t.duplicate();
        let ghost added = t@;
        self.time_records.push(t);
        self.next_id = id + 1;
        assert(self@.time_records =~= old(self)@.time_records.push(added));
        proof { lemma_keys_push::<TimeRecord>(old(self)@.time_records, added, id, self.next_id); }
        self.insert_operation(id, "time_record", "insert", now);
        Ok(out)
    }

    /// Rewrites the time record with id `id`; the stored row is returned.
    pub fn update_time_record(
        &mut self,
        id: i64,
        date: &str,
        cost: i64,
        content: &str,
        event_type: &str,
        time_type: &str,
        now: i64,
    ) -> (r: Result<TimeRecord, StoreError>)
        requires
            old(self)@.wf(),
        ensures
            final(self)@.wf(),
            !has_key::<TimeRecord>(old(self)@.time_records, id) ==> r is Err && r->Err_0 == StoreError::NotFound
                && final(self)@ == old(self)@,
            has_key::<TimeRecord>(old(self)@.time_records, id) ==> ({
                let t = TimeRecordView {
                    id: id,
                    date: date@,
                    cost: cost,
                    content: content@,
                    event_type: event_type@,
                    time_type: time_type@,
                };
                r is Ok && r->Ok_0@ == t && final(self)@ == (StoreView {
                    time_records: old(self)@.time_records.update(index_of_key::<TimeRecord>(old(self)@.time_records, id), t),
                    ..old(self)@
                }).logged("time_record"@, "update"@, id, now)
            }),
    {
        match find_index(&self.time_records, id) {
            None => Err(StoreError::NotFound),
            Some(i) => {
                proof { lemma_row_with_at::<TimeRecord>(self@.time_records, i as int); }
                let t = TimeRecord {
                    id: id,
                    date: date.to_owned(),
                    cost: cost,
                    content: content.to_owned(),
                    event_type: event_type.to_owned(),
                    time_type: time_type.to_owned(),
                };
                let out = t.duplicate();
                let ghost edited = t@;
                self.time_records.set(i, t);
                assert(self@.time_records =~= old(self)@.time_records.update(i as int, edited));
                proof { lemma_keys_preserved::<TimeRecord>(old(self)@.time_records, self@.time_records, self.next_id); }
                self.insert_operation(id, "time_record", "update", now);
                Ok(out)
            },
        }
    }

    /// Removes the time record with id `id`; returns how many rows went.
    pub fn delete_time_record(&mut self, id: i64) -> (r: usize)
        requires
            old(self)@.wf(),
        ensures
            final(self)@.wf(),
            has_key::<TimeRecord>(old(self)@.time_records, id) ==> r == 1 && final(self)@ == (StoreView {
                time_records: old(self)@.time_records.remove(index_of_key::<TimeRecord>(old(self)@.time_records, id)),
                ..old(self)@
            }),
            !has_key::<TimeRecord>(old(self)@.time_records, id) ==> r == 0 && final(self)@ == old(self)@,
    {
        match find_index(&self.time_records, id) {
            Some(i) => {
                proof { lemma_row_with_at::<TimeRecord>(self@.time_records, i as int); }
                self.time_records.remove(i);
                assert(self@.time_records =~= old(self)@.time_records.remove(i as int));
                proof { lemma_keys_remove::<TimeRecord>(old(self)@.time_records, i as int, self.next_id); }
                1
            },
            None => 0,
        }
    }

    /// The time record with id `id`.
    pub fn get_time_record_by_id(&self, id: i64) -> (r: Result<TimeRecord, StoreError>)
        requires
            self@.wf(),
        ensures
            match r {
                Ok(t) => row_with::<TimeRecord>(self@.time_records, id) == Some(t@),
                Err(e) => e == StoreError::NotFound && row_with::<TimeRecord>(self@.time_records, id) is None,
            },
    {
        match find_index(&self.time_records, id) {
            Some(i) => {
                proof { lemma_row_with_at::<TimeRecord>(self@.time_records, i as int); }
                Ok(self.time_records[i].duplicate())
            },
            None => Err(StoreError::NotFound),
        }
    }

    /// The time records dated `date`, in table order.
    pub fn get_time_records_by_date(&self, date: &str) -> (r: Vec<TimeRecord>)
        ensures
            views(r@) == self@.time_records.filter(|t: TimeRecordView| t.date == date@),
    {
        let ghost all = self@.time_records;
        let ghost pred = |t: TimeRecordView| t.date == date@;
        let wanted = date.to_owned();
        let mut out: Vec<TimeRecord> = Vec::new();
        let mut i: usize = 0;
        while i < self.time_records.len()
            invariant
                i <= all.len(),
                all == self@.time_records,
                wanted@ == date@,
                pred == (|t: TimeRecordView| t.date == date@),
                views(out@) == all.take(i as int).filter(pred),
            decreases all.len() - i,
        {
            assert(all.take(i + 1).drop_last() =~= all.take(i as int));
            reveal(Seq::filter);
            let ghost before = views(out@);
            if self.time_records[i].date == wanted {
                out.push(self.time_records[i].duplicate());
                assert(views(out@) =~= before.push(all[i as int]));
            }
            i = i + 1;
        }
        assert(all.take(all.len() as int) =~= all);
        out
    }

    /// Adds the note of a day; its id is returned.
    pub fn insert_daily_note(&mut self, date: &str, content: &str, now: i64) -> (r: Result<i64, StoreError>)
        requires
            old(self)@.wf(),
        ensures
            final(self)@.wf(),
            old(self)@.has_room() ==> r == Ok::<i64, StoreError>(old(self).next_id) && final(self)@ == (StoreView {
                daily_notes: old(self)@.daily_notes.push(DailyNoteView { id: old(self).next_id, date: date@, content: content@ }),
                next_id: (old(self).next_id + 1) as i64,
                ..old(self)@
            }).logged("daily"@, "insert"@, old(self).next_id, now),
            !old(self)@.has_room() ==> r == Err::<i64, StoreError>(StoreError::ConstraintViolation)
                && final(self)@ == old(self)@,
    {
        if self.next_id == i64::MAX {
            return Err(StoreError::ConstraintViolation);
        }
        let id = self.next_id;
        let n = DailyNote { id: id, date: date.to_owned(), content: content.to_owned() };
        let ghost added = n@;
        self.daily_notes.push(n);
        self.next_id = id + 1;
        assert(self@.daily_notes =~= old(self)@.daily_notes.push(added));
        proof { lemma_keys_push::<DailyNote>(old(self)@.daily_notes, added, id, self.next_id); }
        self.insert_operation(id, "daily", "insert", now);
        Ok(id)
    }

    /// Rewrites the content of the daily note with id `id`; returns how
    /// many rows were written.
    pub fn update_daily_note(&mut self, id: i64, content: &str, now: i64) -> (r: Result<usize, StoreError>)
        requires
            old(self)@.wf(),
        ensures
            final(self)@.wf(),
            !has_key::<DailyNote>(old(self)@.daily_notes, id) ==> r == Ok::<usize, StoreError>(0) && final(self)@ == old(self)@,
            has_key::<DailyNote>(old(self)@.daily_notes, id) ==> r == Ok::<usize, StoreError>(1)
                && final(self)@ == (StoreView {
                daily_notes: old(self)@.daily_notes.update(
                    index_of_key::<DailyNote>(old(self)@.daily_notes, id),
                    DailyNoteView {
                        content: content@,
                        ..old(self)@.daily_notes[index_of_key::<DailyNote>(old(self)@.daily_notes, id)]
                    },
                ),
                ..old(self)@
            }).logged("daily"@, "update"@, id, now),
    {
        match find_index(&self.daily_notes, id) {
            None => Ok(0),
            Some(i) => {
                proof { lemma_row_with_at::<DailyNote>(self@.daily_notes, i as int); }
                let mut n = self.daily_notes[i].duplicate();
                n.content = content.to_owned();
                let ghost edited = n@;
                self.daily_notes.set(i, n);
                assert(self@.daily_notes =~= old(self)@.daily_notes.update(i as int, edited));
                proof { lemma_keys_preserved::<DailyNote>(old(self)@.daily_notes, self@.daily_notes, self.next_id); }
                self.insert_operation(id, "daily", "update", now);
                Ok(1)
            },
        }
    }

    /// Removes the daily note with id `id`; returns how many rows went.
    pub fn delete_daily_note(&mut self, id: i64) -> (r: usize)
        requires
            old(self)@.wf(),
        ensures
            final(self)@.wf(),
            has_key::<DailyNote>(old(self)@.daily_notes, id) ==> r == 1 && final(self)@ == (StoreView {
                daily_notes: old(self)@.daily_notes.remove(index_of_key::<DailyNote>(old(self)@.daily_notes, id)),
                ..old(self)@
            }),
            !has_key::<DailyNote>(old(self)@.daily_notes, id) ==> r == 0 && final(self)@ == old(self)@,
    {
        match find_index(&self.daily_notes, id) {
            Some(i) => {
                proof { lemma_row_with_at::<DailyNote>(self@.daily_notes, i as int); }
                self.daily_notes.remove(i);
                assert(self@.daily_notes =~= old(self)@.daily_notes.remove(i as int));
                proof { lemma_keys_remove::<DailyNote>(old(self)@.daily_notes, i as int, self.next_id); }
                1
            },
            None => 0,
        }
    }

    /// The daily note with id `id`.
    pub fn get_daily_note_by_id(&self, id: i64) -> (r: Result<DailyNote, StoreError>)
        requires
            self@.wf(),
        ensures
            match r {
                Ok(n) => row_with::<DailyNote>(self@.daily_notes, id) == Some(n@),
                Err(e) => e == StoreError::NotFound && row_with::<DailyNote>(self@.daily_notes, id) is None,
            },
    {
        match find_index(&self.daily_notes, id) {
            Some(i) => {
                proof { lemma_row_with_at::<DailyNote>(self@.daily_notes, i as int); }
                Ok(self.daily_notes[i].duplicate())
            },
            None => Err(StoreError::NotFound),
        }
    }

    /// The first daily note dated `date`.
    pub fn get_daily_note_by_date(&self, date: &str) -> (r: Result<DailyNote, StoreError>)
        ensures
            match r {
                Ok(n) => exists|i: int|
                    0 <= i < self@.daily_notes.len() && self@.daily_notes[i] == n@ && n@.date == date@ && forall|j: int|
                        0 <= j < i ==> (#[trigger] self@.daily_notes[j]).date != date@,
                Err(e) => e == StoreError::NotFound && forall|i: int| 0 <= i < self@.daily_notes.len() ==> (#[trigger] self@.daily_notes[i]).date != date@,
            },
    {
        let wanted = date.to_owned();
        let mut i: usize = 0;
        while i < self.daily_notes.len()
            invariant
                i <= self@.daily_notes.len(),
                wanted@ == date@,
                forall|j: int| 0 <= j < i ==> (#[trigger] self@.daily_notes[j]).date != date@,
            decreases self@.daily_notes.len() - i,
        {
            if self.daily_notes[i].date == wanted {
                let n = self.daily_notes[i].duplicate();
                assert(self@.daily_notes[i as int] == n@);
                return Ok(n);
            }
            i = i + 1;
        }
        Err(StoreError::NotFound)
    }

    /// Every daily note, in table order.
    pub fn get_daily_notes(&self) -> (r: Vec<DailyNote>)
        ensures
            views(r@) == self@.daily_notes,
    {
        let mut out: Vec<DailyNote> = Vec::new();
        let mut i: usize = 0;
        while i < self.daily_notes.len()
            invariant
                i <= self@.daily_notes.len(),
                views(out@) == self@.daily_notes.take(i as int),
            decreases self@.daily_notes.len() - i,
        {
            let ghost before = views(out@);
            let n = self.daily_notes[i].duplicate();
            assert(n@ == self@.daily_notes[i as int]);
            out.push(n);
            assert(views(out@) =~= before.push(self@.daily_notes[i as int]));
            assert(views(out@) =~= self@.daily_notes.take(i + 1));
            i = i + 1;
        }
        assert(self@.daily_notes.take(self@.daily_notes.len() as int) =~= self@.daily_notes);
        out
    }

    /// Adds a white board; the stored row is returned.
    pub fn create_white_board(
        &mut self,
        tags: Vec<String>,
        data: &str,
        title: &str,
        description: &str,
        snapshot: &str,
        now: i64,
    ) -> (r: Result<WhiteBoard, StoreError>)
        requires
            old(self)@.wf(),
        ensures
            final(self)@.wf(),
            old(self)@.has_room() ==> ({
                let w = WhiteBoardView {
                    id: old(self).next_id,
                    create_time: now,
                    update_time: now,
                    tags: strs_view(tags@),
                    data: data@,
                    title: title@,
                    description: description@,
                    snapshot: snapshot@,
                };
                r is Ok && r->Ok_0@ == w && final(self)@ == (StoreView {
                    white_boards: old(self)@.white_boards.push(w),
                    next_id: (old(self).next_id + 1) as i64,
                    ..old(self)@
                }).logged("white_board"@, "insert"@, old(self).next_id, now)
            }),
            !old(self)@.has_room() ==> r is Err && r->Err_0 == StoreError::ConstraintViolation
                && final(self)@ == old(self)@,
    {
        if self.next_id == i64::MAX {
            return Err(StoreError::ConstraintViolation);
        }
        let id = self.next_id;
        let w = WhiteBoard {
            id: id,
            create_time: now,
            update_time: now,
            tags: tags,
            data: data.to_owned(),
            title: title.to_owned(),
            description: description.to_owned(),
            snapshot: snapshot.to_owned(),
        };
        let out = w.duplicate();
        let ghost added = w@;
        self.white_boards.push(w);
        self.next_id = id + 1;
        assert(self@.white_boards =~= old(self)@.white_boards.push(added));
        proof { lemma_keys_push::<WhiteBoard>(old(self)@.white_boards, added, id, self.next_id); }
        self.insert_operation(id, "white_board", "insert", now);
        Ok(out)
    }

    /// The white board with id `id`.
    pub fn get_white_board_by_id(&self, id: i64) -> (r: Result<WhiteBoard, StoreError>)
        requires
            self@.wf(),
        ensures
            match r {
                Ok(w) => row_with::<WhiteBoard>(self@.white_boards, id) == Some(w@),
                Err(e) => e == StoreError::NotFound && row_with::<WhiteBoard>(self@.white_boards, id) is None,
            },
    {
        match find_index(&self.white_boards, id) {
            Some(i) => {
                proof { lemma_row_with_at::<WhiteBoard>(self@.white_boards, i as int); }
                Ok(self.white_boards[i].duplicate())
            },
            None => Err(StoreError::NotFound),
        }
    }

    /// Rewrites the white board with id `id`; the stored row is returned.
    pub fn update_white_board(
        &mut self,
        id: i64,
        tags: Vec<String>,
        data: &str,
        title: &str,
        description: &str,
        snapshot: &str,
        now: i64,
    ) -> (r: Result<WhiteBoard, StoreError>)
        requires
            old(self)@.wf(),
        ensures
            final(self)@.wf(),
            !has_key::<WhiteBoard>(old(self)@.white_boards, id) ==> r is Err && r->Err_0 == StoreError::NotFound
                && final(self)@ == old(self)@,
            has_key::<WhiteBoard>(old(self)@.white_boards, id) ==> ({
                let i = index_of_key::<WhiteBoard>(old(self)@.white_boards, id);
                let w = WhiteBoardView {
                    update_time: now,
                    tags: strs_view(tags@),
                    data: data@,
                    title: title@,
                    description: description@,
                    snapshot: snapshot@,
                    ..old(self)@.white_boards[i]
                };
                r is Ok && r->Ok_0@ == w && final(self)@ == (StoreView {
                    white_boards: old(self)@.white_boards.update(i, w),
                    ..old(self)@
                }).logged("white_board"@, "update"@, id, now)
            }),
    {
        match find_index(&self.white_boards, id) {
            None => Err(StoreError::NotFound),
            Some(i) => {
                proof { lemma_row_with_at::<WhiteBoard>(self@.white_boards, i as int); }
                let w = WhiteBoard {
                    id: id,
                    create_time: self.white_boards[i].create_time,
                    update_time: now,
                    tags: tags,
                    data: data.to_owned(),
                    title: title.to_owned(),
                    description: description.to_owned(),
                    snapshot: snapshot.to_owned(),
                };
                let out = w.duplicate();
                let ghost edited = w@;
                self.white_boards.set(i, w);
                assert(self@.white_boards =~= old(self)@.white_boards.update(i as int, edited));
                proof { lemma_keys_preserved::<WhiteBoard>(old(self)@.white_boards, self@.white_boards, self.next_id); }
                self.insert_operation(id, "white_board", "update", now);
                Ok(out)
            },
        }
    }

    /// Removes the white board with id `id`; returns how many rows went.
    pub fn delete_white_board(&mut self, id: i64) -> (r: usize)
        requires
            old(self)@.wf(),
        ensures
            final(self)@.wf(),
            has_key::<WhiteBoard>(old(self)@.white_boards, id) ==> r == 1 && final(self)@ == (StoreView {
                white_boards: old(self)@.white_boards.remove(index_of_key::<WhiteBoard>(old(self)@.white_boards, id)),
                ..old(self)@
            }),
            !has_key::<WhiteBoard>(old(self)@.white_boards, id) ==> r == 0 && final(self)@ == old(self)@,
    {
        match find_index(&self.white_boards, id) {
            Some(i) => {
                proof { lemma_row_with_at::<WhiteBoard>(self@.white_boards, i as int); }
                self.white_boards.remove(i);
                assert(self@.white_boards =~= old(self)@.white_boards.remove(i as int));
                proof { lemma_keys_remove::<WhiteBoard>(old(self)@.white_boards, i as int, self.next_id); }
                1
            },
            None => 0,
        }
    }

    /// The white boards whose tag list is exactly `tags`, in table order.
    pub fn get_white_boards_by_tags(&self, tags: &Vec<String>) -> (r: Vec<WhiteBoard>)
        ensures
            views(r@) == self@.white_boards.filter(|w: WhiteBoardView| w.tags == strs_view(tags@)),
    {
        let ghost all = self@.white_boards;
        let ghost pred = |w: WhiteBoardView| w.tags == strs_view(tags@);
        let mut out: Vec<WhiteBoard> = Vec::new();
        let mut i: usize = 0;
        while i < self.white_boards.len()
            invariant
                i <= all.len(),
                all == self@.white_boards,
                pred == (|w: WhiteBoardView| w.tags == strs_view(tags@)),
                views(out@) == all.take(i as int).filter(pred),
            decreases all.len() - i,
        {
            assert(all.take(i + 1).drop_last() =~= all.take(i as int));
            reveal(Seq::filter);
            let ghost before = views(out@);
            if same_strings(&self.white_boards[i].tags, tags) {
                out.push(self.white_boards[i].duplicate());
                assert(views(out@) =~= before.push(all[i as int]));
            }
            i = i + 1;
        }
        assert(all.take(all.len() as int) =~= all);
        out
    }

    /// Every white board, in table order.
    pub fn get_all_white_boards(&self) -> (r: Vec<WhiteBoard>)
        ensures
            views(r@) == self@.white_boards,
    {
        let mut out: Vec<WhiteBoard> = Vec::new();
        let mut i: usize = 0;
        while i < self.white_boards.len()
            invariant
                i <= self@.white_boards.len(),
                views(out@) == self@.white_boards.take(i as int),
            decreases self@.white_boards.len() - i,
        {
            let ghost before = views(out@);
            let w = self.white_boards[i].duplicate();
            assert(w@ == self@.white_boards[i as int]);
            out.push(w);
            assert(views(out@) =~= before.push(self@.white_boards[i as int]));
            assert(views(out@) =~= self@.white_boards.take(i + 1));
            i = i + 1;
        }
        assert(self@.white_boards.take(self@.white_boards.len() as int) =~= self@.white_boards);
        out
    }

    /// Adds a PDF; the stored row is returned.
    pub fn add_pdf(
        &mut self,
        tags: &Vec<String>,
        is_local: bool,
        category: &str,
        file_name: &str,
        file_path: &str,
        remote_url: &str,
        now: i64,
    ) -> (r: Result<Pdf, StoreError>)
        requires
            old(self)@.wf(),
        ensures
            final(self)@.wf(),
            old(self)@.has_room() ==> ({
                let v = PdfView {
                    id: old(self).next_id,
                    create_time: now,
                    update_time: now,
                    tags: strs_view(tags@),
                    is_local: is_local,
                    category: category@,
                    file_name: file_name@,
                    file_path: file_path@,
                    remote_url: remote_url@,
                };
                r is Ok && r->Ok_0@ == v && final(self)@ == (StoreView {
                    pdfs: old(self)@.pdfs.push(v),
                    next_id: (old(self).next_id + 1) as i64,
                    ..old(self)@
                }).logged("pdf"@, "insert"@, old(self).next_id, now)
            }),
            !old(self)@.has_room() ==> r is Err && r->Err_0 == StoreError::ConstraintViolation
                && final(self)@ == old(self)@,
    {
        if self.next_id == i64::MAX {
            return Err(StoreError::ConstraintViolation);
        }
        let id = self.next_id;
        let row = Pdf {
            id: id,
            create_time: now,
            update_time: now,
            tags: copy_strings(tags),
            is_local: is_local,
            category: category.to_owned(),
            file_name: file_name.to_owned(),
            file_path: file_path.to_owned(),
            remote_url: remote_url.to_owned(),
        };
        let out = row.duplicate();
        let ghost added = row@;
        self.pdfs.push(row);
        self.next_id = id + 1;
        assert(self@.pdfs =~= old(self)@.pdfs.push(added));
        proof { lemma_keys_push::<Pdf>(old(self)@.pdfs, added, id, self.next_id); }
        self.insert_operation(id, "pdf", "insert", now);
        Ok(out)
    }

    /// The row of a PDF with id `id`.
    pub fn get_pdf(&self, id: i64) -> (r: Result<Pdf, StoreError>)
        requires
            self@.wf(),
        ensures
            match r {
                Ok(v) => row_with::<Pdf>(self@.pdfs, id) == Some(v@),
                Err(e) => e == StoreError::NotFound && row_with::<Pdf>(self@.pdfs, id) is None,
            },
    {
        match find_index(&self.pdfs, id) {
            Some(i) => {
                proof { lemma_row_with_at::<Pdf>(self@.pdfs, i as int); }
                Ok(self.pdfs[i].duplicate())
            },
            None => Err(StoreError::NotFound),
        }
    }

    /// Rewrites the row with id `id`; the stored row is returned.
    pub fn update_pdf(
        &mut self,
        id: i64,
        tags: &Vec<String>,
        is_local: bool,
        category: &str,
        file_name: &str,
        file_path: &str,
        remote_url: &str,
        now: i64,
    ) -> (r: Result<Pdf, StoreError>)
        requires
            old(self)@.wf(),
        ensures
            final(self)@.wf(),
            !has_key::<Pdf>(old(self)@.pdfs, id) ==> r is Err && r->Err_0 == StoreError::NotFound
                && final(self)@ == old(self)@,
            has_key::<Pdf>(old(self)@.pdfs, id) ==> ({
                let i = index_of_key::<Pdf>(old(self)@.pdfs, id);
                let v = PdfView {
                    update_time: now,
                    tags: strs_view(tags@),
                    is_local: is_local,
                    category: category@,
                    file_name: file_name@,
                    file_path: file_path@,
                    remote_url: remote_url@,
                    ..old(self)@.pdfs[i]
                };
                r is Ok && r->Ok_0@ == v && final(self)@ == (StoreView {
                    pdfs: old(self)@.pdfs.update(i, v),
                    ..old(self)@
                }).logged("pdf"@, "update"@, id, now)
            }),
    {
        match find_index(&self.pdfs, id) {
            None => Err(StoreError::NotFound),
            Some(i) => {
                proof { lemma_row_with_at::<Pdf>(self@.pdfs, i as int); }
                let row = Pdf {
                    id: id,
                    create_time: self.pdfs[i].create_time,
                    update_time: now,
                    tags: copy_strings(tags),
                    is_local: is_local,
                    category: category.to_owned(),
                    file_name: file_name.to_owned(),
                    file_path: file_path.to_owned(),
                    remote_url: remote_url.to_owned(),
                };
                let out = row.duplicate();
                let ghost edited = row@;
                self.pdfs.set(i, row);
                assert(self@.pdfs =~= old(self)@.pdfs.update(i as int, edited));
                proof { lemma_keys_preserved::<Pdf>(old(self)@.pdfs, self@.pdfs, self.next_id); }
                self.insert_operation(id, "pdf", "update", now);
                Ok(out)
            },
        }
    }

    /// Removes the row with id `id`; returns how many rows went.
    pub fn remove_pdf(&mut self, id: i64) -> (r: usize)
        requires
            old(self)@.wf(),
        ensures
            final(self)@.wf(),
            has_key::<Pdf>(old(self)@.pdfs, id) ==> r == 1 && final(self)@ == (StoreView {
                pdfs: old(self)@.pdfs.remove(index_of_key::<Pdf>(old(self)@.pdfs, id)),
                ..old(self)@
            }),
            !has_key::<Pdf>(old(self)@.pdfs, id) ==> r == 0 && final(self)@ == old(self)@,
    {
        match find_index(&self.pdfs, id) {
            Some(i) => {
                proof { lemma_row_with_at::<Pdf>(self@.pdfs, i as int); }
                self.pdfs.remove(i);
                assert(self@.pdfs =~= old(self)@.pdfs.remove(i as int));
                proof { lemma_keys_remove::<Pdf>(old(self)@.pdfs, i as int, self.next_id); }
                1
            },
            None => 0,
        }
    }

    /// Every row, in table order.
    pub fn get_pdf_list(&self) -> (r: Vec<Pdf>)
        ensures
            views(r@) == self@.pdfs,
    {
        let mut out: Vec<Pdf> = Vec::new();
        let mut i: usize = 0;
        while i < self.pdfs.len()
            invariant
                i <= self@.pdfs.len(),
                views(out@) == self@.pdfs.take(i as int),
            decreases self@.pdfs.len() - i,
        {
            let ghost before = views(out@);
            let row = self.pdfs[i].duplicate();
            assert(row@ == self@.pdfs[i as int]);
            out.push(row);
            assert(views(out@) =~= before.push(self@.pdfs[i as int]));
            assert(views(out@) =~= self@.pdfs.take(i + 1));
            i = i + 1;
        }
        assert(self@.pdfs.take(self@.pdfs.len() as int) =~= self@.pdfs);
        out
    }

    /// Adds a highlight; the stored row is returned.
    pub fn add_highlight(
        &mut self,
        pdf_id: i64,
        color: &str,
        highlight_type: &str,
        rects: &str,
        bounding_client_rect: &str,
        highlight_text_style: &str,
        page_num: u32,
        content: &str,
        image: &str,
        notes: &str,
        now: i64,
    ) -> (r: Result<PdfHighlight, StoreError>)
        requires
            old(self)@.wf(),
        ensures
            final(self)@.wf(),
            old(self)@.has_room() ==> ({
                let v = PdfHighlightView {
                    id: old(self).next_id,
                    create_time: now,
                    update_time: now,
                    pdf_id: pdf_id,
                    color: color@,
                    highlight_type: highlight_type@,
                    rects: rects@,
                    bounding_client_rect: bounding_client_rect@,
                    highlight_text_style: highlight_text_style@,
                    page_num: page_num,
                    content: content@,
                    image: image@,
                    notes: notes@,
                };
                r is Ok && r->Ok_0@ == v && final(self)@ == (StoreView {
                    pdf_highlights: old(self)@.pdf_highlights.push(v),
                    next_id: (old(self).next_id + 1) as i64,
                    ..old(self)@
                }).logged("pdf_highlight"@, "insert"@, old(self).next_id, now)
            }),
            !old(self)@.has_room() ==> r is Err && r->Err_0 == StoreError::ConstraintViolation
                && final(self)@ == old(self)@,
    {
        if self.next_id == i64::MAX {
            return Err(StoreError::ConstraintViolation);
        }
        let id = self.next_id;
        let row = PdfHighlight {
            id: id,
            create_time: now,
            update_time: now,
            pdf_id: pdf_id,
            color: color.to_owned(),
            highlight_type: highlight_type.to_owned(),
            rects: rects.to_owned(),
            bounding_client_rect: bounding_client_rect.to_owned(),
            highlight_text_style: highlight_text_style.to_owned(),
            page_num: page_num,
            content: content.to_owned(),
            image: image.to_owned(),
            notes: notes.to_owned(),
        };
        let out = row.duplicate();
        let ghost added = row@;
        self.pdf_highlights.push(row);
        self.next_id = id + 1;
        assert(self@.pdf_highlights =~= old(self)@.pdf_highlights.push(added));
        proof { lemma_keys_push::<PdfHighlight>(old(self)@.pdf_highlights, added, id, self.next_id); }
        self.insert_operation(id, "pdf_highlight", "insert", now);
        Ok(out)
    }

    /// The row of a highlight with id `id`.
    pub fn get_highlight_by_id(&self, id: i64) -> (r: Result<PdfHighlight, StoreError>)
        requires
            self@.wf(),
        ensures
            match r {
                Ok(v) => row_with::<PdfHighlight>(self@.pdf_highlights, id) == Some(v@),
                Err(e) => e == StoreError::NotFound && row_with::<PdfHighlight>(self@.pdf_highlights, id) is None,
            },
    {
        match find_index(&self.pdf_highlights, id) {
            Some(i) => {
                proof { lemma_row_with_at::<PdfHighlight>(self@.pdf_highlights, i as int); }
                Ok(self.pdf_highlights[i].duplicate())
            },
            None => Err(StoreError::NotFound),
        }
    }

    /// Rewrites the row with id `id`; the stored row is returned.
    pub fn update_highlight(
        &mut self,
        id: i64,
        pdf_id: i64,
        color: &str,
        highlight_type: &str,
        rects: &str,
        bounding_client_rect: &str,
        highlight_text_style: &str,
        page_num: u32,
        content: &str,
        image: &str,
        notes: &str,
        now: i64,
    ) -> (r: Result<PdfHighlight, StoreError>)
        requires
            old(self)@.wf(),
        ensures
            final(self)@.wf(),
            !has_key::<PdfHighlight>(old(self)@.pdf_highlights, id) ==> r is Err && r->Err_0 == StoreError::NotFound
                && final(self)@ == old(self)@,
            has_key::<PdfHighlight>(old(self)@.pdf_highlights, id) ==> ({
                let i = index_of_key::<PdfHighlight>(old(self)@.pdf_highlights, id);
                let v = PdfHighlightView {
                    update_time: now,
                    pdf_id: pdf_id,
                    color: color@,
                    highlight_type: highlight_type@,
                    rects: rects@,
                    bounding_client_rect: bounding_client_rect@,
                    highlight_text_style: highlight_text_style@,
                    page_num: page_num,
                    content: content@,
                    image: image@,
                    notes: notes@,
                    ..old(self)@.pdf_highlights[i]
                };
                r is Ok && r->Ok_0@ == v && final(self)@ == (StoreView {
                    pdf_highlights: old(self)@.pdf_highlights.update(i, v),
                    ..old(self)@
                }).logged("pdf_highlight"@, "update"@, id, now)
            }),
    {
        match find_index(&self.pdf_highlights, id) {
            None => Err(StoreError::NotFound),
            Some(i) => {
                proof { lemma_row_with_at::<PdfHighlight>(self@.pdf_highlights, i as int); }
                let row = PdfHighlight {
                    id: id,
                    create_time: self.pdf_highlights[i].create_time,
                    update_time: now,
                    pdf_id: pdf_id,
                    color: color.to_owned(),
                    highlight_type: highlight_type.to_owned(),
                    rects: rects.to_owned(),
                    bounding_client_rect: bounding_client_rect.to_owned(),
                    highlight_text_style: highlight_text_style.to_owned(),
                    page_num: page_num,
                    content: content.to_owned(),
                    image: image.to_owned(),
                    notes: notes.to_owned(),
                };
                let out = row.duplicate();
                let ghost edited = row@;
                self.pdf_highlights.set(i, row);
                assert(self@.pdf_highlights =~= old(self)@.pdf_highlights.update(i as int, edited));
                proof { lemma_keys_preserved::<PdfHighlight>(old(self)@.pdf_highlights, self@.pdf_highlights, self.next_id); }
                self.insert_operation(id, "pdf_highlight", "update", now);
                Ok(out)
            },
        }
    }

    /// Removes the row with id `id`; returns how many rows went.
    pub fn remove_highlight(&mut self, id: i64) -> (r: usize)
        requires
            old(self)@.wf(),
        ensures
            final(self)@.wf(),
            has_key::<PdfHighlight>(old(self)@.pdf_highlights, id) ==> r == 1 && final(self)@ == (StoreView {
                pdf_highlights: old(self)@.pdf_highlights.remove(index_of_key::<PdfHighlight>(old(self)@.pdf_highlights, id)),
                ..old(self)@
            }),
            !has_key::<PdfHighlight>(old(self)@.pdf_highlights, id) ==> r == 0 && final(self)@ == old(self)@,
    {
        match find_index(&self.pdf_highlights, id) {
            Some(i) => {
                proof { lemma_row_with_at::<PdfHighlight>(self@.pdf_highlights, i as int); }
                self.pdf_highlights.remove(i);
                assert(self@.pdf_highlights =~= old(self)@.pdf_highlights.remove(i as int));
                proof { lemma_keys_remove::<PdfHighlight>(old(self)@.pdf_highlights, i as int, self.next_id); }
                1
            },
            None => 0,
        }
    }

    /// The highlights of PDF `pdf_id`, in table order.
    pub fn get_highlights(&self, pdf_id: i64) -> (r: Vec<PdfHighlight>)
        ensures
            views(r@) == self@.pdf_highlights.filter(|h: PdfHighlightView| h.pdf_id == pdf_id),
    {
        let ghost all = self@.pdf_highlights;
        let ghost pred = |h: PdfHighlightView| h.pdf_id == pdf_id;
        let mut out: Vec<PdfHighlight> = Vec::new();
        let mut i: usize = 0;
        while i < self.pdf_highlights.len()
            invariant
                i <= all.len(),
                all == self@.pdf_highlights,
                pred == (|h: PdfHighlightView| h.pdf_id == pdf_id),
                views(out@) == all.take(i as int).filter(pred),
            decreases all.len() - i,
        {
            assert(all.take(i + 1).drop_last() =~= all.take(i as int));
            reveal(Seq::filter);
            let ghost before = views(out@);
            if self.pdf_highlights[i].pdf_id == pdf_id {
                out.push(self.pdf_highlights[i].duplicate());
                assert(views(out@) =~= before.push(all[i as int]));
            }
            i = i + 1;
        }
        assert(all.take(all.len() as int) =~= all);
        out
    }

    /// Adds a conversation; the stored row is returned.
    pub fn create_chat_message(
        &mut self,
        messages: Vec<Message>,
        title: &str,
        now: i64,
    ) -> (r: Result<ChatMessage, StoreError>)
        requires
            old(self)@.wf(),
        ensures
            final(self)@.wf(),
            old(self)@.has_room() ==> ({
                let v = ChatMessageView {
                    id: old(self).next_id,
                    create_time: now,
                    update_time: now,
                    messages: messages_view(messages@),
                    title: title@,
                };
                r is Ok && r->Ok_0@ == v && final(self)@ == (StoreView {
                    chat_messages: old(self)@.chat_messages.push(v),
                    next_id: (old(self).next_id + 1) as i64,
                    ..old(self)@
                }).logged("chat_message"@, "insert"@, old(self).next_id, now)
            }),
            !old(self)@.has_room() ==> r is Err && r->Err_0 == StoreError::ConstraintViolation
                && final(self)@ == old(self)@,
    {
        if self.next_id == i64::MAX {
            return Err(StoreError::ConstraintViolation);
        }
        let id = self.next_id;
        let row = ChatMessage {
            id: id,
            create_time: now,
            update_time: now,
            messages: messages,
            title: title.to_owned(),
        };
        let out = row.duplicate();
        let ghost added = row@;
        self.chat_messages.push(row);
        self.next_id = id + 1;
        assert(self@.chat_messages =~= old(self)@.chat_messages.push(added));
        proof { lemma_keys_push::<ChatMessage>(old(self)@.chat_messages, added, id, self.next_id); }
        self.insert_operation(id, "chat_message", "insert", now);
        Ok(out)
    }

    /// The row of a conversation with id `id`.
    pub fn get_chat_message_by_id(&self, id: i64) -> (r: Result<ChatMessage, StoreError>)
        requires
            self@.wf(),
        ensures
            match r {
                Ok(v) => row_with::<ChatMessage>(self@.chat_messages, id) == Some(v@),
                Err(e) => e == StoreError::NotFound && row_with::<ChatMessage>(self@.chat_messages, id) is None,
            },
    {
        match find_index(&self.chat_messages, id) {
            Some(i) => {
                proof { lemma_row_with_at::<ChatMessage>(self@.chat_messages, i as int); }
                Ok(self.chat_messages[i].duplicate())
            },
            None => Err(StoreError::NotFound),
        }
    }

    /// Rewrites the row with id `id`; the stored row is returned.
    pub fn update_chat_message(
        &mut self,
        id: i64,
        messages: Vec<Message>,
        title: &str,
        now: i64,
    ) -> (r: Result<ChatMessage, StoreError>)
        requires
            old(self)@.wf(),
        ensures
            final(self)@.wf(),
            !has_key::<ChatMessage>(old(self)@.chat_messages, id) ==> r is Err && r->Err_0 == StoreError::NotFound
                && final(self)@ == old(self)@,
            has_key::<ChatMessage>(old(self)@.chat_messages, id) ==> ({
                let i = index_of_key::<ChatMessage>(old(self)@.chat_messages, id);
                let v = ChatMessageView {
                    update_time: now,
                    messages: messages_view(messages@),
                    title: title@,
                    ..old(self)@.chat_messages[i]
                };
                r is Ok && r->Ok_0@ == v && final(self)@ == (StoreView {
                    chat_messages: old(self)@.chat_messages.update(i, v),
                    ..old(self)@
                }).logged("chat_message"@, "update"@, id, now)
            }),
    {
        match find_index(&self.chat_messages, id) {
            None => Err(StoreError::NotFound),
            Some(i) => {
                proof { lemma_row_with_at::<ChatMessage>(self@.chat_messages, i as int); }
                let row = ChatMessage {
                    id: id,
                    create_time: self.chat_messages[i].create_time,
                    update_time: now,
                    messages: messages,
                    title: title.to_owned(),
                };
                let out = row.duplicate();
                let ghost edited = row@;
                self.chat_messages.set(i, row);
                assert(self@.chat_messages =~= old(self)@.chat_messages.update(i as int, edited));
                proof { lemma_keys_preserved::<ChatMessage>(old(self)@.chat_messages, self@.chat_messages, self.next_id); }
                self.insert_operation(id, "chat_message", "update", now);
                Ok(out)
            },
        }
    }

    /// Removes the row with id `id`; returns how many rows went.
    pub fn delete_chat_message(&mut self, id: i64) -> (r: usize)
        requires
            old(self)@.wf(),
        ensures
            final(self)@.wf(),
            has_key::<ChatMessage>(old(self)@.chat_messages, id) ==> r == 1 && final(self)@ == (StoreView {
                chat_messages: old(self)@.chat_messages.remove(index_of_key::<ChatMessage>(old(self)@.chat_messages, id)),
                ..old(self)@
            }),
            !has_key::<ChatMessage>(old(self)@.chat_messages, id) ==> r == 0 && final(self)@ == old(self)@,
    {
        match find_index(&self.chat_messages, id) {
            Some(i) => {
                proof { lemma_row_with_at::<ChatMessage>(self@.chat_messages, i as int); }
                self.chat_messages.remove(i);
                assert(self@.chat_messages =~= old(self)@.chat_messages.remove(i as int));
                proof { lemma_keys_remove::<ChatMessage>(old(self)@.chat_messages, i as int, self.next_id); }
                1
            },
            None => 0,
        }
    }

    /// Every row, in table order.
    pub fn get_chat_messages(&self) -> (r: Vec<ChatMessage>)
        ensures
            views(r@) == self@.chat_messages,
    {
        let mut out: Vec<ChatMessage> = Vec::new();
        let mut i: usize = 0;
        while i < self.chat_messages.len()
            invariant
                i <= self@.chat_messages.len(),
                views(out@) == self@.chat_messages.take(i as int),
            decreases self@.chat_messages.len() - i,
        {
            let ghost before = views(out@);
            let row = self.chat_messages[i].duplicate();
            assert(row@ == self@.chat_messages[i as int]);
            out.push(row);
            assert(views(out@) =~= before.push(self@.chat_messages[i as int]));
            assert(views(out@) =~= self@.chat_messages.take(i + 1));
            i = i + 1;
        }
        assert(self@.chat_messages.take(self@.chat_messages.len() as int) =~= self@.chat_messages);
        out
    }

    /// Removes every project item that `target` dooms, logging each
    /// removal; returns how many went. Where ids would not last for the
    /// log rows, nothing is removed.
    fn delete_project_items_where(&mut self, target: Option<i64>, now: i64) -> (r: Result<usize, StoreError>)
        requires
            old(self)@.wf(),
        ensures
            final(self)@.wf(),
            ({
                let gone = old(self)@.project_items.filter(|p: ProjectItemView| doomed(p, target));
                let kept = old(self)@.project_items.filter(|p: ProjectItemView| !doomed(p, target));
                &&& gone.len() <= i64::MAX - old(self).next_id ==> r == Ok::<usize, StoreError>(gone.len() as usize)
                    && final(self)@ == (StoreView {
                    project_items: kept,
                    operations: old(self)@.operations + deletion_log(gone, old(self).next_id, now),
                    next_id: (old(self).next_id + gone.len()) as i64,
                    ..old(self)@
                })
                &&& gone.len() > i64::MAX - old(self).next_id ==> r == Err::<usize, StoreError>(
                    StoreError::ConstraintViolation,
                ) && final(self)@ == old(self)@
            }),
    {
        let ghost all = self@.project_items;
        let ghost start = self.next_id;
        let ghost ops0 = self@.operations;
        let ghost bad = |p: ProjectItemView| doomed(p, target);
        let ghost good = |p: ProjectItemView| !doomed(p, target);
        // count first: the log needs one id per removal
        let mut n: u64 = 0;
        let mut i: usize = 0;
        while i < self.project_items.len()
            invariant
                i <= all.len(),
                all == self@.project_items,
                bad == (|p: ProjectItemView| doomed(p, target)),
                n == all.take(i as int).filter(bad).len(),
                n <= i,
            decreases all.len() - i,
        {
            assert(all.take(i + 1).drop_last() =~= all.take(i as int));
            reveal(Seq::filter);
            let hit = match target {
                None => self.project_items[i].projects.len() == 0,
                Some(pid) => !contains_id(&self.project_items[i].projects, pid),
            };
            if hit {
                n = n + 1;
            }
            i = i + 1;
        }
        assert(all.take(all.len() as int) =~= all);
        if n > (i64::MAX - self.next_id) as u64 {
            return Err(StoreError::ConstraintViolation);
        }
        let mut kept: Vec<ProjectItem> = Vec::new();
        let ghost mut src: Seq<int> = Seq::empty();
        let mut c: u64 = 0;
        let mut i: usize = 0;
        while i < self.project_items.len()
            invariant
                i <= all.len(),
                all == self@.project_items,
                old(self)@.wf(),
                self@.wf(),
                self@.project_items == old(self)@.project_items,
                self@.cards == old(self)@.cards,
                self@.articles == old(self)@.articles,
                self@.document_items == old(self)@.document_items,
                self@.documents == old(self)@.documents,
                self@.projects == old(self)@.projects,
                self@.time_records == old(self)@.time_records,
                self@.daily_notes == old(self)@.daily_notes,
                self@.white_boards == old(self)@.white_boards,
                self@.pdfs == old(self)@.pdfs,
                self@.pdf_highlights == old(self)@.pdf_highlights,
                self@.chat_messages == old(self)@.chat_messages,
                bad == (|p: ProjectItemView| doomed(p, target)),
                good == (|p: ProjectItemView| !doomed(p, target)),
                n == all.filter(bad).len(),
                n <= i64::MAX - start,
                start == old(self).next_id,
                ops0 == old(self)@.operations,
                c == all.take(i as int).filter(bad).len(),
                c <= n,
                self.next_id == start + c,
                self@.operations == ops0 + deletion_log(all.take(i as int).filter(bad), start, now),
                views(kept@) == all.take(i as int).filter(good),
                src.len() == kept@.len(),
                forall|k: int| 0 <= k < kept@.len() ==> 0 <= #[trigger] src[k] < i && kept@[k]@ == all[src[k]],
                forall|a: int, b: int| 0 <= a < b < src.len() ==> src[a] < src[b],
            decreases all.len() - i,
        {
            assert(all.take(i + 1).drop_last() =~= all.take(i as int));
            reveal(Seq::filter);
            proof {
                all.take(i + 1).lemma_filter_len_push(bad, all[i as int]);
                all.lemma_filter_take_len(bad, i + 1);
            }
            let hit = match target {
                None => self.project_items[i].projects.len() == 0,
                Some(pid) => !contains_id(&self.project_items[i].projects, pid),
            };
            assert(hit == doomed(all[i as int], target));
            if hit {
                let id = self.project_items[i].id;
                self.insert_operation(id, "project_item", "delete", now);
                c = c + 1;
                assert(self@.operations =~= ops0 + deletion_log(all.take(i + 1).filter(bad), start, now));
            } else {
                let ghost before = views(kept@);
                kept.push(self.project_items[i].duplicate());
                assert(views(kept@) =~= before.push(all[i as int]));
                proof { src = src.push(i as int); }
            }
            i = i + 1;
        }
        assert(all.take(all.len() as int) =~= all);
        proof {
            let kv = views(kept@);
            assert forall|a: int, b: int| 0 <= a < kv.len() && 0 <= b < kv.len() && a != b implies ProjectItem::vkey(kv[a]) != ProjectItem::vkey(kv[b]) by {
                assert(kv[a] == all[src[a]] && kv[b] == all[src[b]]);
                assert(src[a] != src[b]);
            }
            assert forall|a: int| 0 <= a < kv.len() implies 0 < #[trigger] ProjectItem::vkey(kv[a]) < self.next_id by {
                assert(kv[a] == all[src[a]]);
                assert(0 < ProjectItem::vkey(all[src[a]]) < start);
            }
        }
        self.project_items = kept;
        Ok(c as usize)
    }

    /// Removes every project item that belongs to no project, logging each
    /// removal; returns how many went.
    pub fn delete_project_items_not_in_any_project(&mut self, now: i64) -> (r: Result<usize, StoreError>)
        requires
            old(self)@.wf(),
        ensures
            final(self)@.wf(),
            ({
                let gone = old(self)@.project_items.filter(|p: ProjectItemView| doomed(p, None::<i64>));
                let kept = old(self)@.project_items.filter(|p: ProjectItemView| !doomed(p, None::<i64>));
                &&& gone.len() <= i64::MAX - old(self).next_id ==> r == Ok::<usize, StoreError>(gone.len() as usize)
                    && final(self)@ == (StoreView {
                    project_items: kept,
                    operations: old(self)@.operations + deletion_log(gone, old(self).next_id, now),
                    next_id: (old(self).next_id + gone.len()) as i64,
                    ..old(self)@
                })
                &&& gone.len() > i64::MAX - old(self).next_id ==> r == Err::<usize, StoreError>(
                    StoreError::ConstraintViolation,
                ) && final(self)@ == old(self)@
            }),
    {
        self.delete_project_items_where(None, now)
    }

    /// Removes every project item outside project `project_id`, logging
    /// each removal; returns how many went.
    pub fn delete_all_project_items_not_in_project(&mut self, project_id: i64, now: i64) -> (r: Result<usize, StoreError>)
        requires
            old(self)@.wf(),
        ensures
            final(self)@.wf(),
            ({
                let gone = old(self)@.project_items.filter(|p: ProjectItemView| doomed(p, Some(project_id)));
                let kept = old(self)@.project_items.filter(|p: ProjectItemView| !doomed(p, Some(project_id)));
                &&& gone.len() <= i64::MAX - old(self).next_id ==> r == Ok::<usize, StoreError>(gone.len() as usize)
                    && final(self)@ == (StoreView {
                    project_items: kept,
                    operations: old(self)@.operations + deletion_log(gone, old(self).next_id, now),
                    next_id: (old(self).next_id + gone.len()) as i64,
                    ..old(self)@
                })
                &&& gone.len() > i64::MAX - old(self).next_id ==> r == Err::<usize, StoreError>(
                    StoreError::ConstraintViolation,
                ) && final(self)@ == old(self)@
            }),
    {
        self.delete_project_items_where(Some(project_id), now)
    }

    /// Pushes a source's new content into every document item that wraps
    /// it and every project item bound to it, but the document item
    /// `except_item` and the project item `except_project`.
    fn mirror(
        &mut self,
        card: bool,
        ref_id: i64,
        title: &str,
        content: &str,
        now: i64,
        except_item: i64,
        except_project: i64,
        retitle: bool,
    )
        requires
            old(self)@.wf(),
        ensures
            final(self)@ == mirrored(old(self)@, card, ref_id, title@, content@, now, except_item, except_project, retitle),
            final(self)@.wf(),
    {
        let ghost before = self@.document_items;
        let mut i: usize = 0;
        while i < self.document_items.len()
            invariant
                i <= self.document_items@.len(),
                old(self)@.wf(),
                before == old(self)@.document_items,
                self.document_items@.len() == before.len(),
                forall|k: int| 0 <= k < i ==> #[trigger] self@.document_items[k] == mirror_in_item(before[k], card, ref_id, title@, content@, now, except_item),
                forall|k: int| i <= k < before.len() ==> #[trigger] self@.document_items[k] == before[k],
                self.cards == old(self).cards,
                self.articles == old(self).articles,
                self.project_items == old(self).project_items,
                self.documents == old(self).documents,
                self.projects == old(self).projects,
                self.time_records == old(self).time_records,
                self.daily_notes == old(self).daily_notes,
                self.white_boards == old(self).white_boards,
                self.pdfs == old(self).pdfs,
                self.pdf_highlights == old(self).pdf_highlights,
                self.chat_messages == old(self).chat_messages,
                self.operations == old(self).operations,
                self.next_id == old(self).next_id,
            decreases before.len() - i,
        {
            let hit = if card {
                self.document_items[i].is_card && self.document_items[i].card_id == ref_id
            } else {
                self.document_items[i].is_article && self.document_items[i].article_id == ref_id
            };
            if hit && self.document_items[i].id != except_item {
                let ghost old_items = self.document_items;
                let mut d = self.document_items[i].duplicate();
                assert(self@.document_items[i as int] == before[i as int]);
                d.content = content.to_owned();
                if !card {
                    d.title = title.to_owned();
                }
                d.update_time = now;
                assert(d@ == mirror_in_item(before[i as int], card, ref_id, title@, content@, now, except_item));
                let ghost pre = self@.document_items;
                self.document_items.set(i, d);
                assert forall|k: int| 0 <= k < pre.len() && k != i implies #[trigger] self@.document_items[k] == pre[k] by {
                    assert(self.document_items@[k] == old_items@[k]);
                }
            }
            assert(self@.document_items[i as int] == mirror_in_item(before[i as int], card, ref_id, title@, content@, now, except_item));
            i = i + 1;
        }
        assert(self@.document_items =~= before.map_values(
            |d: DocumentItemView| mirror_in_item(d, card, ref_id, title@, content@, now, except_item),
        ));
        let ty = if card { "card".to_owned() } else { "article".to_owned() };
        proof {
            reveal_strlit("card");
            reveal_strlit("article");
        }
        let ghost pbefore = self@.project_items;
        let ghost mid = self@;
        let mut j: usize = 0;
        while j < self.project_items.len()
            invariant
                j <= self.project_items@.len(),
                old(self)@.wf(),
                ty@ == (if card { "card"@ } else { "article"@ }),
                pbefore == old(self)@.project_items,
                self.project_items@.len() == pbefore.len(),
                forall|k: int| 0 <= k < j ==> #[trigger] self@.project_items[k] == mirror_in_project_item(pbefore[k], card, ref_id, title@, content@, now, except_project, retitle),
                forall|k: int| j <= k < pbefore.len() ==> #[trigger] self@.project_items[k] == pbefore[k],
                self@.document_items == mid.document_items,
                self.cards == old(self).cards,
                self.articles == old(self).articles,
                self.documents == old(self).documents,
                self.projects == old(self).projects,
                self.time_records == old(self).time_records,
                self.daily_notes == old(self).daily_notes,
                self.white_boards == old(self).white_boards,
                self.pdfs == old(self).pdfs,
                self.pdf_highlights == old(self).pdf_highlights,
                self.chat_messages == old(self).chat_messages,
                self.operations == old(self).operations,
                self.next_id == old(self).next_id,
            decreases pbefore.len() - j,
        {
            if self.project_items[j].ref_type == ty && self.project_items[j].ref_id == ref_id
                && self.project_items[j].id != except_project {
                let ghost old_items = self.project_items;
                let mut p = self.project_items[j].duplicate();
                assert(self@.project_items[j as int] == pbefore[j as int]);
                p.content = content.to_owned();
                if !card || retitle {
                    p.title = title.to_owned();
                }
                p.update_time = now;
                assert(p@ == mirror_in_project_item(pbefore[j as int], card, ref_id, title@, content@, now, except_project, retitle));
                let ghost pre = self@.project_items;
                self.project_items.set(j, p);
                assert forall|k: int| 0 <= k < pre.len() && k != j implies #[trigger] self@.project_items[k] == pre[k] by {
                    assert(self.project_items@[k] == old_items@[k]);
                }
            }
            assert(self@.project_items[j as int] == mirror_in_project_item(pbefore[j as int], card, ref_id, title@, content@, now, except_project, retitle));
            j = j + 1;
        }
        assert(self@.project_items =~= pbefore.map_values(
            |p: ProjectItemView| mirror_in_project_item(p, card, ref_id, title@, content@, now, except_project, retitle),
        ));
        assert(forall|k: int| 0 <= k < before.len() ==> #[trigger] self@.document_items[k].id == before[k].id);
        assert(forall|k: int| 0 <= k < pbefore.len() ==> #[trigger] self@.project_items[k].id == pbefore[k].id);
        assert(keys_unique::<DocumentItem>(self@.document_items)) by {
            assert forall|a: int, b: int|
                0 <= a < self@.document_items.len() && 0 <= b < self@.document_items.len() && a != b
                implies DocumentItem::vkey(self@.document_items[a]) != DocumentItem::vkey(self@.document_items[b]) by {
                assert(DocumentItem::vkey(before[a]) != DocumentItem::vkey(before[b]));
            }
        }
        assert(keys_unique::<ProjectItem>(self@.project_items)) by {
            assert forall|a: int, b: int|
                0 <= a < self@.project_items.len() && 0 <= b < self@.project_items.len() && a != b
                implies ProjectItem::vkey(self@.project_items[a]) != ProjectItem::vkey(self@.project_items[b]) by {
                assert(ProjectItem::vkey(pbefore[a]) != ProjectItem::vkey(pbefore[b]));
            }
        }
        assert(keys_below::<DocumentItem>(self@.document_items, self.next_id)) by {
            assert forall|a: int| 0 <= a < self@.document_items.len()
                implies 0 < #[trigger] DocumentItem::vkey(self@.document_items[a]) < self.next_id by {
                assert(0 < DocumentItem::vkey(before[a]) < self.next_id);
            }
        }
        assert(keys_below::<ProjectItem>(self@.project_items, self.next_id)) by {
            assert forall|a: int| 0 <= a < self@.project_items.len()
                implies 0 < #[trigger] ProjectItem::vkey(self@.project_items[a]) < self.next_id by {
                assert(0 < ProjectItem::vkey(pbefore[a]) < self.next_id);
            }
        }
    }
}

} // verus!
