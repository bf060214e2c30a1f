use vstd::prelude::*;

verus! {

/// The character sequences held by a list of strings.
pub open spec fn strs_view(s: Seq<String>) -> Seq<Seq<char>> {
    s.map_values(|x: String| x@)
}

/// A copy of a list of strings.
pub fn copy_strings(v: &Vec<String>) -> (r: Vec<String>)
    ensures
        strs_view(r@) == strs_view(v@),
        r@ == v@,
{
    let mut r: Vec<String> = Vec::new();
    let mut i: usize = 0;
    while i < v.len()
        invariant
            i <= v@.len(),
            r@ == v@.take(i as int),
        decreases v@.len() - i,
    {
        r.push(v[i].clone());
        i = i + 1;
        assert(r@ =~= v@.take(i as int));
    }
    assert(v@.take(v@.len() as int) =~= v@);
    r
}

/// A copy of a list of ids.
pub fn copy_ids(v: &Vec<i64>) -> (r: Vec<i64>)
    ensures
        r@ == v@,
{
    let mut r: Vec<i64> = Vec::new();
    let mut i: usize = 0;
    while i < v.len()
        invariant
            i <= v@.len(),
            r@ == v@.take(i as int),
        decreases v@.len() - i,
    {
        r.push(v[i]);
        i = i + 1;
        assert(r@ =~= v@.take(i as int));
    }
    assert(v@.take(v@.len() as int) =~= v@);
    r
}

/// Whether a list of ids holds `id`.
pub fn contains_id(v: &Vec<i64>, id: i64) -> (r: bool)
    ensures
        r == v@.contains(id),
{
    let mut i: usize = 0;
    while i < v.len()
        invariant
            i <= v@.len(),
            forall|k: int| 0 <= k < i ==> v@[k] != id,
        decreases v@.len() - i,
    {
        if v[i] == id {
            return true;
        }
        i = i + 1;
    }
    false
}

/// A row of a table of the store: what the generic table code reads of it.
pub trait Row: View + Sized {
    /// The row's id.
    spec fn vkey(v: Self::V) -> i64;

    /// The time of the row's last write.
    spec fn vstamp(v: Self::V) -> i64;

    /// Whether the row is soft-deleted.
    spec fn vgone(v: Self::V) -> bool;

    fn row_id(&self) -> (r: i64)
        ensures
            r == Self::vkey(self@),
    ;

    fn row_stamp(&self) -> (r: i64)
        ensures
            r == Self::vstamp(self@),
    ;

    fn row_gone(&self) -> (r: bool)
        ensures
            r == Self::vgone(self@),
    ;

    fn row_copy(&self) -> (r: Self)
        ensures
            r@ == self@,
    ;
}

/// A short note: free text with tags and links to other cards.
pub struct Card {
    pub id: i64,
    pub create_time: i64,
    pub update_time: i64,
    pub tags: Vec<String>,
    pub links: Vec<i64>,
    pub content: String,
    pub category: String,
}

pub struct CardView {
    pub id: i64,
    pub create_time: i64,
    pub update_time: i64,
    pub tags: Seq<Seq<char>>,
    pub links: Seq<i64>,
    pub content: Seq<char>,
    pub category: Seq<char>,
}

impl View for Card {
    type V = CardView;

    open spec fn view(&self) -> CardView {
        CardView {
            id: self.id,
            create_time: self.create_time,
            update_time: self.update_time,
            tags: strs_view(self.tags@),
            links: self.links@,
            content: self.content@,
            category: self.category@,
        }
    }
}

impl Card {
    /// A field-by-field copy.
    pub fn duplicate(&self) -> (r: Card)
        ensures
            r@ == self@,
    {
        Card {
            id: self.id,
            create_time: self.create_time,
            update_time: self.update_time,
            tags: copy_strings(&self.tags),
            links: copy_ids(&self.links),
            content: self.content.clone(),
            category: self.category.clone(),
        }
    }
}

/// A long-form text with title and author; soft-deleted.
pub struct Article {
    pub id: i64,
    pub create_time: i64,
    pub update_time: i64,
    pub title: String,
    pub author: String,
    pub tags: Vec<String>,
    pub links: Vec<i64>,
    pub content: String,
    pub banner_bg: String,
    pub is_top: bool,
    pub is_delete: bool,
}

pub struct ArticleView {
    pub id: i64,
    pub create_time: i64,
    pub update_time: i64,
    pub title: Seq<char>,
    pub author: Seq<char>,
    pub tags: Seq<Seq<char>>,
    pub links: Seq<i64>,
    pub content: Seq<char>,
    pub banner_bg: Seq<char>,
    pub is_top: bool,
    pub is_delete: bool,
}

impl View for Article {
    type V = ArticleView;

    open spec fn view(&self) -> ArticleView {
        ArticleView {
            id: self.id,
            create_time: self.create_time,
            update_time: self.update_time,
            title: self.title@,
            author: self.author@,
            tags: strs_view(self.tags@),
            links: self.links@,
            content: self.content@,
            banner_bg: self.banner_bg@,
            is_top: self.is_top,
            is_delete: self.is_delete,
        }
    }
}

impl Article {
    /// A field-by-field copy.
    pub fn duplicate(&self) -> (r: Article)
        ensures
            r@ == self@,
    {
        Article {
            id: self.id,
            create_time: self.create_time,
            update_time: self.update_time,
            title: self.title.clone(),
            author: self.author.clone(),
            tags: copy_strings(&self.tags),
            links: copy_ids(&self.links),
            content: self.content.clone(),
            banner_bg: self.banner_bg.clone(),
            is_top: self.is_top,
            is_delete: self.is_delete,
        }
    }
}

/// A node of a document tree. It may wrap a card or an article, whose
/// content (and for an article, title) it mirrors.
pub struct DocumentItem {
    pub id: i64,
    pub create_time: i64,
    pub update_time: i64,
    pub title: String,
    pub authors: Vec<String>,
    pub tags: Vec<String>,
    pub is_directory: bool,
    pub children: Vec<i64>,
    pub is_article: bool,
    pub article_id: i64,
    pub is_card: bool,
    pub card_id: i64,
    pub content: String,
    pub banner_bg: String,
    pub icon: String,
    pub is_delete: bool,
    pub parents: Vec<i64>,
}

pub struct DocumentItemView {
    pub id: i64,
    pub create_time: i64,
    pub update_time: i64,
    pub title: Seq<char>,
    pub authors: Seq<Seq<char>>,
    pub tags: Seq<Seq<char>>,
    pub is_directory: bool,
    pub children: Seq<i64>,
    pub is_article: bool,
    pub article_id: i64,
    pub is_card: bool,
    pub card_id: i64,
    pub content: Seq<char>,
    pub banner_bg: Seq<char>,
    pub icon: Seq<char>,
    pub is_delete: bool,
    pub parents: Seq<i64>,
}

impl View for DocumentItem {
    type V = DocumentItemView;

    open spec fn view(&self) -> DocumentItemView {
        DocumentItemView {
            id: self.id,
            create_time: self.create_time,
            update_time: self.update_time,
            title: self.title@,
            authors: strs_view(self.authors@),
            tags: strs_view(self.tags@),
            is_directory: self.is_directory,
            children: self.children@,
            is_article: self.is_article,
            article_id: self.article_id,
            is_card: self.is_card,
            card_id: self.card_id,
            content: self.content@,
            banner_bg: self.banner_bg@,
            icon: self.icon@,
            is_delete: self.is_delete,
            parents: self.parents@,
        }
    }
}

impl DocumentItem {
    /// A field-by-field copy.
    pub fn duplicate(&self) -> (r: DocumentItem)
        ensures
            r@ == self@,
    {
        DocumentItem {
            id: self.id,
            create_time: self.create_time,
            update_time: self.update_time,
            title: self.title.clone(),
            authors: copy_strings(&self.authors),
            tags: copy_strings(&self.tags),
            is_directory: self.is_directory,
            children: copy_ids(&self.children),
            is_article: self.is_article,
            article_id: self.article_id,
            is_card: self.is_card,
            card_id: self.card_id,
            content: self.content.clone(),
            banner_bg: self.banner_bg.clone(),
            icon: self.icon.clone(),
            is_delete: self.is_delete,
            parents: copy_ids(&self.parents),
        }
    }
}

/// An entry of one or more projects. When `ref_type` names a card or an
/// article and `ref_id` is set, its title and content mirror that entity.
pub struct ProjectItem {
    pub id: i64,
    pub create_time: i64,
    pub update_time: i64,
    pub title: String,
    pub content: String,
    pub children: Vec<i64>,
    pub parents: Vec<i64>,
    pub projects: Vec<i64>,
    pub ref_type: String,
    pub ref_id: i64,
}

pub struct ProjectItemView {
    pub id: i64,
    pub create_time: i64,
    pub update_time: i64,
    pub title: Seq<char>,
    pub content: Seq<char>,
    pub children: Seq<i64>,
    pub parents: Seq<i64>,
    pub projects: Seq<i64>,
    pub ref_type: Seq<char>,
    pub ref_id: i64,
}

impl View for ProjectItem {
    type V = ProjectItemView;

    open spec fn view(&self) -> ProjectItemView {
        ProjectItemView {
            id: self.id,
            create_time: self.create_time,
            update_time: self.update_time,
            title: self.title@,
            content: self.content@,
            children: self.children@,
            parents: self.parents@,
            projects: self.projects@,
            ref_type: self.ref_type@,
            ref_id: self.ref_id,
        }
    }
}

impl ProjectItem {
    /// A field-by-field copy.
    pub fn duplicate(&self) -> (r: ProjectItem)
        ensures
            r@ == self@,
    {
        ProjectItem {
            id: self.id,
            create_time: self.create_time,
            update_time: self.update_time,
            title: self.title.clone(),
            content: self.content.clone(),
            children: copy_ids(&self.children),
            parents: copy_ids(&self.parents),
            projects: copy_ids(&self.projects),
            ref_type: self.ref_type.clone(),
            ref_id: self.ref_id,
        }
    }
}

/// One row of the audit trail of mutating actions.
pub struct Operation {
    pub id: i64,
    pub operation_time: i64,
    pub operation_content_type: String,
    pub operation_action: String,
    pub operation_id: i64,
}

pub struct OperationView {
    pub id: i64,
    pub operation_time: i64,
    pub operation_content_type: Seq<char>,
    pub operation_action: Seq<char>,
    pub operation_id: i64,
}

impl View for Operation {
    type V = OperationView;

    open spec fn view(&self) -> OperationView {
        OperationView {
            id: self.id,
            operation_time: self.operation_time,
            operation_content_type: self.operation_content_type@,
            operation_action: self.operation_action@,
            operation_id: self.operation_id,
        }
    }
}

impl Operation {
    /// A field-by-field copy.
    pub fn duplicate(&self) -> (r: Operation)
        ensures
            r@ == self@,
    {
        Operation {
            id: self.id,
            operation_time: self.operation_time,
            operation_content_type: self.operation_content_type.clone(),
            operation_action: self.operation_action.clone(),
            operation_id: self.operation_id,
        }
    }
}


impl Row for Card {
    open spec fn vkey(v: CardView) -> i64 {
        v.id
    }

    open spec fn vstamp(v: CardView) -> i64 {
        v.update_time
    }

    open spec fn vgone(v: CardView) -> bool {
        false
    }

    fn row_id(&self) -> (r: i64) {
        self.id
    }

    fn row_stamp(&self) -> (r: i64) {
        self.update_time
    }

    fn row_gone(&self) -> (r: bool) {
        false
    }

    fn row_copy(&self) -> (r: Card) {
        self.duplicate()
    }
}

impl Row for Article {
    open spec fn vkey(v: ArticleView) -> i64 {
        v.id
    }

    open spec fn vstamp(v: ArticleView) -> i64 {
        v.update_time
    }

    open spec fn vgone(v: ArticleView) -> bool {
        v.is_delete
    }

    fn row_id(&self) -> (r: i64) {
        self.id
    }

    fn row_stamp(&self) -> (r: i64) {
        self.update_time
    }

    fn row_gone(&self) -> (r: bool) {
        self.is_delete
    }

    fn row_copy(&self) -> (r: Article) {
        self.duplicate()
    }
}

impl Row for DocumentItem {
    open spec fn vkey(v: DocumentItemView) -> i64 {
        v.id
    }

    open spec fn vstamp(v: DocumentItemView) -> i64 {
        v.update_time
    }

    open spec fn vgone(v: DocumentItemView) -> bool {
        v.is_delete
    }

    fn row_id(&self) -> (r: i64) {
        self.id
    }

    fn row_stamp(&self) -> (r: i64) {
        self.update_time
    }

    fn row_gone(&self) -> (r: bool) {
        self.is_delete
    }

    fn row_copy(&self) -> (r: DocumentItem) {
        self.duplicate()
    }
}

impl Row for ProjectItem {
    open spec fn vkey(v: ProjectItemView) -> i64 {
        v.id
    }

    open spec fn vstamp(v: ProjectItemView) -> i64 {
        v.update_time
    }

    open spec fn vgone(v: ProjectItemView) -> bool {
        false
    }

    fn row_id(&self) -> (r: i64) {
        self.id
    }

    fn row_stamp(&self) -> (r: i64) {
        self.update_time
    }

    fn row_gone(&self) -> (r: bool) {
        false
    }

    fn row_copy(&self) -> (r: ProjectItem) {
        self.duplicate()
    }
}

impl Row for Operation {
    open spec fn vkey(v: OperationView) -> i64 {
        v.id
    }

    open spec fn vstamp(v: OperationView) -> i64 {
        v.operation_time
    }

    open spec fn vgone(v: OperationView) -> bool {
        false
    }

    fn row_id(&self) -> (r: i64) {
        self.id
    }

    fn row_stamp(&self) -> (r: i64) {
        self.operation_time
    }

    fn row_gone(&self) -> (r: bool) {
        false
    }

    fn row_copy(&self) -> (r: Operation) {
        self.duplicate()
    }
}

} // verus!
