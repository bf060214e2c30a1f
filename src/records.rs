use vstd::prelude::*;
use crate::entity::{Row, copy_ids, copy_strings, strs_view};
use vstd::string::StrSliceExecFns;

verus! {

/// A storage bucket of a remote object store.
pub struct BucketInfo {
    pub bucket: String,
    pub region: String,
}

/// One turn of a chat: who spoke and what was said.
pub struct Message {
    pub role: String,
    pub content: String,
}

pub struct MessageView {
    pub role: Seq<char>,
    pub content: Seq<char>,
}

impl View for Message {
    type V = MessageView;

    open spec fn view(&self) -> MessageView {
        MessageView { role: self.role@, content: self.content@ }
    }
}

pub open spec fn messages_view(s: Seq<Message>) -> Seq<MessageView> {
    s.map_values(|m: Message| m@)
}

/// A copy of a conversation's messages.
pub fn copy_messages(v: &Vec<Message>) -> (r: Vec<Message>)
    ensures
        messages_view(r@) == messages_view(v@),
{
    let mut r: Vec<Message> = Vec::new();
    let mut i: usize = 0;
    while i < v.len()
        invariant
            i <= v@.len(),
            messages_view(r@) == messages_view(v@).take(i as int),
        decreases v@.len() - i,
    {
        let ghost before = messages_view(r@);
        let m = Message { role: v[i].role.clone(), content: v[i].content.clone() };
        assert(m@ == messages_view(v@)[i as int]);
        r.push(m);
        assert(messages_view(r@) =~= before.push(m@));
        i = i + 1;
        assert(messages_view(r@) =~= messages_view(v@).take(i as int));
    }
    assert(messages_view(v@).take(v@.len() as int) =~= messages_view(v@));
    r
}

/// A saved chat conversation.
pub struct ChatMessage {
    pub id: i64,
    pub create_time: i64,
    pub update_time: i64,
    pub messages: Vec<Message>,
    pub title: String,
}

pub struct ChatMessageView {
    pub id: i64,
    pub create_time: i64,
    pub update_time: i64,
    pub messages: Seq<MessageView>,
    pub title: Seq<char>,
}

impl View for ChatMessage {
    type V = ChatMessageView;

    open spec fn view(&self) -> ChatMessageView {
        ChatMessageView {
            id: self.id,
            create_time: self.create_time,
            update_time: self.update_time,
            messages: messages_view(self.messages@),
            title: self.title@,
        }
    }
}

impl ChatMessage {
    /// A field-by-field copy.
    pub fn duplicate(&self) -> (r: ChatMessage)
        ensures
            r@ == self@,
    {
        ChatMessage {
            id: self.id,
            create_time: self.create_time,
            update_time: self.update_time,
            messages: copy_messages(&self.messages),
            title: self.title.clone(),
        }
    }
}

impl Row for ChatMessage {
    open spec fn vkey(v: ChatMessageView) -> i64 {
        v.id
    }

    open spec fn vstamp(v: ChatMessageView) -> i64 {
        v.update_time
    }

    open spec fn vgone(v: ChatMessageView) -> bool {
        false
    }

    fn row_id(&self) -> (r: i64) {
        self.id
    }

    fn row_stamp(&self) -> (r: i64) {
        self.update_time
    }

    fn row_gone(&self) -> (r: bool) {
        false
    }

    fn row_copy(&self) -> (r: ChatMessage) {
        self.duplicate()
    }
}

/// The note of one day.
pub struct DailyNote {
    pub id: i64,
    pub date: String,
    pub content: String,
}

/// A document: the root of a tree of document items.
pub struct Document {
    pub id: i64,
    pub create_time: i64,
    pub update_time: i64,
    pub title: String,
    pub desc: String,
    pub authors: Vec<String>,
    pub children: Vec<i64>,
    pub tags: Vec<String>,
    pub links: Vec<i64>,
    pub content: String,
    pub banner_bg: String,
    pub icon: String,
    pub is_top: bool,
    pub is_delete: bool,
}

pub struct DocumentView {
    pub id: i64,
    pub create_time: i64,
    pub update_time: i64,
    pub title: Seq<char>,
    pub desc: Seq<char>,
    pub authors: Seq<Seq<char>>,
    pub children: Seq<i64>,
    pub tags: Seq<Seq<char>>,
    pub links: Seq<i64>,
    pub content: Seq<char>,
    pub banner_bg: Seq<char>,
    pub icon: Seq<char>,
    pub is_top: bool,
    pub is_delete: bool,
}

impl View for Document {
    type V = DocumentView;

    open spec fn view(&self) -> DocumentView {
        DocumentView {
            id: self.id,
            create_time: self.create_time,
            update_time: self.update_time,
            title: self.title@,
            desc: self.desc@,
            authors: strs_view(self.authors@),
            children: self.children@,
            tags: strs_view(self.tags@),
            links: self.links@,
            content: self.content@,
            banner_bg: self.banner_bg@,
            icon: self.icon@,
            is_top: self.is_top,
            is_delete: self.is_delete,
        }
    }
}

impl Document {
    /// A field-by-field copy.
    pub fn duplicate(&self) -> (r: Document)
        ensures
            r@ == self@,
    {
        Document {
            id: self.id,
            create_time: self.create_time,
            update_time: self.update_time,
            title: self.title.clone(),
            desc: self.desc.clone(),
            authors: copy_strings(&self.authors),
            children: copy_ids(&self.children),
            tags: copy_strings(&self.tags),
            links: copy_ids(&self.links),
            content: self.content.clone(),
            banner_bg: self.banner_bg.clone(),
            icon: self.icon.clone(),
            is_top: self.is_top,
            is_delete: self.is_delete,
        }
    }
}

impl Row for Document {
    open spec fn vkey(v: DocumentView) -> i64 {
        v.id
    }

    open spec fn vstamp(v: DocumentView) -> i64 {
        v.update_time
    }

    open spec fn vgone(v: DocumentView) -> bool {
        v.is_delete
    }

    fn row_id(&self) -> (r: i64) {
        self.id
    }

    fn row_stamp(&self) -> (r: i64) {
        self.update_time
    }

    fn row_gone(&self) -> (r: bool) {
        self.is_delete
    }

    fn row_copy(&self) -> (r: Document) {
        self.duplicate()
    }
}

/// A document with the number of distinct items below it.
pub struct DocumentWithCount {
    pub document: Document,
    pub count: i64,
}

/// A snapshot of some entity's content.
pub struct History {
    pub id: i64,
    pub create_time: i64,
    pub content: String,
    pub content_type: String,
    pub content_id: i64,
}

pub struct HistoryView {
    pub id: i64,
    pub create_time: i64,
    pub content: Seq<char>,
    pub content_type: Seq<char>,
    pub content_id: i64,
}

impl View for History {
    type V = HistoryView;

    open spec fn view(&self) -> HistoryView {
        HistoryView {
            id: self.id,
            create_time: self.create_time,
            content: self.content@,
            content_type: self.content_type@,
            content_id: self.content_id,
        }
    }
}

impl History {
    /// A field-by-field copy.
    pub fn duplicate(&self) -> (r: History)
        ensures
            r@ == self@,
    {
        History {
            id: self.id,
            create_time: self.create_time,
            content: self.content.clone(),
            content_type: self.content_type.clone(),
            content_id: self.content_id,
        }
    }
}

impl Row for History {
    open spec fn vkey(v: HistoryView) -> i64 {
        v.id
    }

    open spec fn vstamp(v: HistoryView) -> i64 {
        v.create_time
    }

    open spec fn vgone(v: HistoryView) -> bool {
        false
    }

    fn row_id(&self) -> (r: i64) {
        self.id
    }

    fn row_stamp(&self) -> (r: i64) {
        self.create_time
    }

    fn row_gone(&self) -> (r: bool) {
        false
    }

    fn row_copy(&self) -> (r: History) {
        self.duplicate()
    }
}

/// A page request over the snapshots of one entity.
pub struct Query {
    pub page_size: i64,
    pub page_number: i64,
    pub content_type: String,
    pub content_id: i64,
}

/// A PDF file, local or remote.
pub struct Pdf {
    pub id: i64,
    pub create_time: i64,
    pub update_time: i64,
    pub tags: Vec<String>,
    pub is_local: bool,
    pub category: String,
    pub file_name: String,
    pub file_path: String,
    pub remote_url: String,
}

pub struct PdfView {
    pub id: i64,
    pub create_time: i64,
    pub update_time: i64,
    pub tags: Seq<Seq<char>>,
    pub is_local: bool,
    pub category: Seq<char>,
    pub file_name: Seq<char>,
    pub file_path: Seq<char>,
    pub remote_url: Seq<char>,
}

impl View for Pdf {
    type V = PdfView;

    open spec fn view(&self) -> PdfView {
        PdfView {
            id: self.id,
            create_time: self.create_time,
            update_time: self.update_time,
            tags: strs_view(self.tags@),
            is_local: self.is_local,
            category: self.category@,
            file_name: self.file_name@,
            file_path: self.file_path@,
            remote_url: self.remote_url@,
        }
    }
}

impl Pdf {
    /// A field-by-field copy.
    pub fn duplicate(&self) -> (r: Pdf)
        ensures
            r@ == self@,
    {
        Pdf {
            id: self.id,
            create_time: self.create_time,
            update_time: self.update_time,
            tags: copy_strings(&self.tags),
            is_local: self.is_local,
            category: self.category.clone(),
            file_name: self.file_name.clone(),
            file_path: self.file_path.clone(),
            remote_url: self.remote_url.clone(),
        }
    }
}

impl Row for Pdf {
    open spec fn vkey(v: PdfView) -> i64 {
        v.id
    }

    open spec fn vstamp(v: PdfView) -> i64 {
        v.update_time
    }

    open spec fn vgone(v: PdfView) -> bool {
        false
    }

    fn row_id(&self) -> (r: i64) {
        self.id
    }

    fn row_stamp(&self) -> (r: i64) {
        self.update_time
    }

    fn row_gone(&self) -> (r: bool) {
        false
    }

    fn row_copy(&self) -> (r: Pdf) {
        self.duplicate()
    }
}

/// A highlight made in a PDF.
pub struct PdfHighlight {
    pub id: i64,
    pub create_time: i64,
    pub update_time: i64,
    pub pdf_id: i64,
    pub color: String,
    pub highlight_type: String,
    pub rects: String,
    pub bounding_client_rect: String,
    pub highlight_text_style: String,
    pub page_num: u32,
    pub content: String,
    pub image: String,
    pub notes: String,
}

pub struct DailyNoteView {
    pub id: i64,
    pub date: Seq<char>,
    pub content: Seq<char>,
}

impl View for DailyNote {
    type V = DailyNoteView;

    open spec fn view(&self) -> DailyNoteView {
        DailyNoteView { id: self.id, date: self.date@, content: self.content@ }
    }
}

impl DailyNote {
    /// A field-by-field copy.
    pub fn duplicate(&self) -> (r: DailyNote)
        ensures
            r@ == self@,
    {
        DailyNote { id: self.id, date: self.date.clone(), content: self.content.clone() }
    }
}

impl Row for DailyNote {
    open spec fn vkey(v: DailyNoteView) -> i64 {
        v.id
    }

    open spec fn vstamp(v: DailyNoteView) -> i64 {
        0
    }

    open spec fn vgone(v: DailyNoteView) -> bool {
        false
    }

    fn row_id(&self) -> (r: i64) {
        self.id
    }

    fn row_stamp(&self) -> (r: i64) {
        0
    }

    fn row_gone(&self) -> (r: bool) {
        false
    }

    fn row_copy(&self) -> (r: DailyNote) {
        self.duplicate()
    }
}

pub struct PdfHighlightView {
    pub id: i64,
    pub create_time: i64,
    pub update_time: i64,
    pub pdf_id: i64,
    pub color: Seq<char>,
    pub highlight_type: Seq<char>,
    pub rects: Seq<char>,
    pub bounding_client_rect: Seq<char>,
    pub highlight_text_style: Seq<char>,
    pub page_num: u32,
    pub content: Seq<char>,
    pub image: Seq<char>,
    pub notes: Seq<char>,
}

impl View for PdfHighlight {
    type V = PdfHighlightView;

    open spec fn view(&self) -> PdfHighlightView {
        PdfHighlightView {
            id: self.id,
            create_time: self.create_time,
            update_time: self.update_time,
            pdf_id: self.pdf_id,
            color: self.color@,
            highlight_type: self.highlight_type@,
            rects: self.rects@,
            bounding_client_rect: self.bounding_client_rect@,
            highlight_text_style: self.highlight_text_style@,
            page_num: self.page_num,
            content: self.content@,
            image: self.image@,
            notes: self.notes@,
        }
    }
}

impl PdfHighlight {
    /// A field-by-field copy.
    pub fn duplicate(&self) -> (r: PdfHighlight)
        ensures
            r@ == self@,
    {
        PdfHighlight {
            id: self.id,
            create_time: self.create_time,
            update_time: self.update_time,
            pdf_id: self.pdf_id,
            color: self.color.clone(),
            highlight_type: self.highlight_type.clone(),
            rects: self.rects.clone(),
            bounding_client_rect: self.bounding_client_rect.clone(),
            highlight_text_style: self.highlight_text_style.clone(),
            page_num: self.page_num,
            content: self.content.clone(),
            image: self.image.clone(),
            notes: self.notes.clone(),
        }
    }
}

impl Row for PdfHighlight {
    open spec fn vkey(v: PdfHighlightView) -> i64 {
        v.id
    }

    open spec fn vstamp(v: PdfHighlightView) -> i64 {
        v.update_time
    }

    open spec fn vgone(v: PdfHighlightView) -> bool {
        false
    }

    fn row_id(&self) -> (r: i64) {
        self.id
    }

    fn row_stamp(&self) -> (r: i64) {
        self.update_time
    }

    fn row_gone(&self) -> (r: bool) {
        false
    }

    fn row_copy(&self) -> (r: PdfHighlight) {
        self.duplicate()
    }
}

/// A project: a named collection of project items.
pub struct Project {
    pub id: i64,
    pub create_time: i64,
    pub update_time: i64,
    pub title: String,
    pub children: Vec<i64>,
    pub desc: String,
}

pub struct ProjectView {
    pub id: i64,
    pub create_time: i64,
    pub update_time: i64,
    pub title: Seq<char>,
    pub children: Seq<i64>,
    pub desc: Seq<char>,
}

impl View for Project {
    type V = ProjectView;

    open spec fn view(&self) -> ProjectView {
        ProjectView {
            id: self.id,
            create_time: self.create_time,
            update_time: self.update_time,
            title: self.title@,
            children: self.children@,
            desc: self.desc@,
        }
    }
}

impl Project {
    /// A field-by-field copy.
    pub fn duplicate(&self) -> (r: Project)
        ensures
            r@ == self@,
    {
        Project {
            id: self.id,
            create_time: self.create_time,
            update_time: self.update_time,
            title: self.title.clone(),
            children: copy_ids(&self.children),
            desc: self.desc.clone(),
        }
    }
}

impl Row for Project {
    open spec fn vkey(v: ProjectView) -> i64 {
        v.id
    }

    open spec fn vstamp(v: ProjectView) -> i64 {
        v.update_time
    }

    open spec fn vgone(v: ProjectView) -> bool {
        false
    }

    fn row_id(&self) -> (r: i64) {
        self.id
    }

    fn row_stamp(&self) -> (r: i64) {
        self.update_time
    }

    fn row_gone(&self) -> (r: bool) {
        false
    }

    fn row_copy(&self) -> (r: Project) {
        self.duplicate()
    }
}

/// Time spent on something on some day.
pub struct TimeRecord {
    pub id: i64,
    pub date: String,
    pub cost: i64,
    pub content: String,
    pub event_type: String,
    pub time_type: String,
}

pub struct TimeRecordView {
    pub id: i64,
    pub date: Seq<char>,
    pub cost: i64,
    pub content: Seq<char>,
    pub event_type: Seq<char>,
    pub time_type: Seq<char>,
}

impl View for TimeRecord {
    type V = TimeRecordView;

    open spec fn view(&self) -> TimeRecordView {
        TimeRecordView {
            id: self.id,
            date: self.date@,
            cost: self.cost,
            content: self.content@,
            event_type: self.event_type@,
            time_type: self.time_type@,
        }
    }
}

impl TimeRecord {
    /// A field-by-field copy.
    pub fn duplicate(&self) -> (r: TimeRecord)
        ensures
            r@ == self@,
    {
        TimeRecord {
            id: self.id,
            date: self.date.clone(),
            cost: self.cost,
            content: self.content.clone(),
            event_type: self.event_type.clone(),
            time_type: self.time_type.clone(),
        }
    }
}

impl Row for TimeRecord {
    open spec fn vkey(v: TimeRecordView) -> i64 {
        v.id
    }

    open spec fn vstamp(v: TimeRecordView) -> i64 {
        0
    }

    open spec fn vgone(v: TimeRecordView) -> bool {
        false
    }

    fn row_id(&self) -> (r: i64) {
        self.id
    }

    fn row_stamp(&self) -> (r: i64) {
        0
    }

    fn row_gone(&self) -> (r: bool) {
        false
    }

    fn row_copy(&self) -> (r: TimeRecord) {
        self.duplicate()
    }
}

/// The time records of one day.
pub struct TimeRecordGroup {
    pub date: String,
    pub time_records: Vec<TimeRecord>,
}

pub open spec fn record_views(s: Seq<TimeRecord>) -> Seq<TimeRecordView> {
    s.map_values(|r: TimeRecord| r@)
}

/// The records of `rs` dated `date`, in order.
pub open spec fn date_group(rs: Seq<TimeRecordView>, date: Seq<char>) -> Seq<TimeRecordView>
    decreases rs.len(),
{
    if rs.len() == 0 {
        Seq::empty()
    } else {
        let rest = date_group(rs.drop_last(), date);
        if rs.last().date == date {
            rest.push(rs.last())
        } else {
            rest
        }
    }
}

/// Some record of `rs` is dated `date`.
pub open spec fn date_used(rs: Seq<TimeRecordView>, date: Seq<char>) -> bool {
    exists|i: int| 0 <= i < rs.len() && rs[i].date == date
}

/// Groups time records by date: one group per date, in the order the dates
/// first appear, each holding that date's records in order.
pub fn get_all_time_records(records: &Vec<TimeRecord>) -> (r: Vec<TimeRecordGroup>)
    ensures
        forall|g: int, h: int| 0 <= g < r@.len() && 0 <= h < r@.len() && g != h ==> r@[g].date@ != r@[h].date@,
        forall|g: int| 0 <= g < r@.len() ==> record_views((#[trigger] r@[g]).time_records@) == date_group(record_views(records@), r@[g].date@),
        forall|g: int| 0 <= g < r@.len() ==> date_used(record_views(records@), (#[trigger] r@[g]).date@),
        forall|d: Seq<char>| #[trigger] date_used(record_views(records@), d) ==> exists|g: int| 0 <= g < r@.len() && (#[trigger] r@[g]).date@ == d,
{
    let ghost rs = record_views(records@);
    let mut groups: Vec<TimeRecordGroup> = Vec::new();
    let mut i: usize = 0;
    while i < records.len()
        invariant
            i <= rs.len(),
            rs == record_views(records@),
            forall|g: int, h: int| 0 <= g < groups@.len() && 0 <= h < groups@.len() && g != h ==> groups@[g].date@ != groups@[h].date@,
            forall|g: int| 0 <= g < groups@.len() ==> record_views((#[trigger] groups@[g]).time_records@) == date_group(rs.take(i as int), groups@[g].date@),
            forall|g: int| 0 <= g < groups@.len() ==> date_used(rs.take(i as int), (#[trigger] groups@[g]).date@),
            forall|d: Seq<char>| #[trigger] date_used(rs.take(i as int), d) ==> exists|g: int| 0 <= g < groups@.len() && (#[trigger] groups@[g]).date@ == d,
        decreases rs.len() - i,
    {
        let ghost pre = rs.take(i as int);
        let ghost upto = rs.take(i + 1);
        let ghost cur = rs[i as int];
        assert(upto.drop_last() =~= pre);
        assert(upto.last() == cur);
        assert(cur == records@[i as int]@);
        let mut g: usize = 0;
        while g < groups.len() && groups[g].date != records[i].date
            invariant
                i < records@.len(),
                g <= groups@.len(),
                forall|h: int| 0 <= h < g ==> groups@[h].date@ != records@[i as int].date@,
            decreases groups@.len() - g,
        {
            g = g + 1;
        }
        let ghost gs = groups@;
        if g < groups.len() {
            let ghost before = record_views(groups@[g as int].time_records@);
            groups[g].time_records.push(records[i].duplicate());
            assert(record_views(groups@[g as int].time_records@) =~= before.push(cur));
            assert forall|h: int| 0 <= h < groups@.len() && h != g implies groups@[h] == gs[h] by {}
        } else {
            proof {
                if date_used(pre, cur.date) {
                    let w = choose|w: int| 0 <= w < gs.len() && gs[w].date@ == cur.date;
                }
                assert(!date_used(pre, cur.date));
                lemma_date_group_empty(pre, cur.date);
            }
            groups.push(TimeRecordGroup { date: records[i].date.clone(), time_records: vec![records[i].duplicate()] });
            assert(record_views(groups@[g as int].time_records@) =~= seq![cur]);
        }
        proof {
            assert(groups@[g as int].date@ == cur.date);
            assert forall|h: int| 0 <= h < gs.len() implies (#[trigger] groups@[h]).date@ == gs[h].date@ by {}
            assert forall|h: int| 0 <= h < groups@.len() implies record_views((#[trigger] groups@[h]).time_records@) == date_group(upto, groups@[h].date@) by {
                if h == g {
                    if g == gs.len() {
                        assert(date_group(pre, cur.date) =~= Seq::<TimeRecordView>::empty());
                    }
                }
            }
            assert forall|h: int| 0 <= h < groups@.len() implies date_used(upto, (#[trigger] groups@[h]).date@) by {
                let d = groups@[h].date@;
                if h == g {
                    assert(upto[i as int] == cur);
                } else {
                    assert(date_used(pre, d));
                    let w = choose|w: int| 0 <= w < pre.len() && pre[w].date == d;
                    assert(upto[w] == pre[w]);
                }
            }
            assert forall|d: Seq<char>| #[trigger] date_used(upto, d) implies exists|w: int| 0 <= w < groups@.len() && (#[trigger] groups@[w]).date@ == d by {
                let k = choose|k: int| 0 <= k < upto.len() && upto[k].date == d;
                if k < pre.len() {
                    assert(upto[k] == pre[k]);
                    assert(date_used(pre, d));
                    let w = choose|w: int| 0 <= w < gs.len() && gs[w].date@ == d;
                    assert(groups@[w].date@ == d);
                } else {
                    assert(groups@[g as int].date@ == d);
                }
            }
        }
        i = i + 1;
    }
    assert(rs.take(rs.len() as int) =~= rs);
    groups
}

/// The event type (`event`) or time type of a record.
pub open spec fn kind_of(r: TimeRecordView, event: bool) -> Seq<char> {
    if event {
        r.event_type
    } else {
        r.time_type
    }
}

/// The distinct non-empty event types (`event`) or time types of the
/// records, in order of first appearance.
fn distinct_kinds(records: &Vec<TimeRecord>, event: bool) -> (r: Vec<String>)
    ensures
        strs_view(r@).no_duplicates(),
        forall|k: int| 0 <= k < r@.len() ==> (#[trigger] r@[k])@.len() > 0 && exists|i: int|
            0 <= i < records@.len() && kind_of(records@[i]@, event) == r@[k]@,
        forall|i: int| 0 <= i < records@.len() && kind_of((#[trigger] records@[i])@, event).len() > 0 ==> strs_view(
            r@,
        ).contains(kind_of(records@[i]@, event)),
{
    let mut out: Vec<String> = Vec::new();
    let mut i: usize = 0;
    while i < records.len()
        invariant
            i <= records@.len(),
            strs_view(out@).no_duplicates(),
            forall|k: int| 0 <= k < out@.len() ==> (#[trigger] out@[k])@.len() > 0 && exists|j: int|
                0 <= j < records@.len() && kind_of(records@[j]@, event) == out@[k]@,
            forall|j: int| 0 <= j < i && kind_of((#[trigger] records@[j])@, event).len() > 0 ==> strs_view(out@).contains(
                kind_of(records@[j]@, event),
            ),
        decreases records@.len() - i,
    {
        let v = if event { &records[i].event_type } else { &records[i].time_type };
        assert(v@ == kind_of(records@[i as int]@, event));
        if !v.as_str().is_empty() {
            let mut found = false;
            let mut k: usize = 0;
            while k < out.len()
                invariant
                    k <= out@.len(),
                    found == exists|m: int| 0 <= m < k && out@[m]@ == v@,
                decreases out@.len() - k,
            {
                if out[k] == *v {
                    found = true;
                }
                k = k + 1;
            }
            if !found {
                let ghost before = strs_view(out@);
                out.push(v.clone());
                assert(strs_view(out@) =~= before.push(v@));
                assert(strs_view(out@)[out@.len() - 1] == v@);
                assert forall|j: int| 0 <= j < i && kind_of((#[trigger] records@[j])@, event).len() > 0 implies strs_view(out@).contains(
                    kind_of(records@[j]@, event),
                ) by {
                    let w = choose|w: int| 0 <= w < before.len() && before[w] == kind_of(records@[j]@, event);
                    assert(strs_view(out@)[w] == before[w]);
                }
            } else {
                proof {
                    let m = choose|m: int| 0 <= m < out@.len() && out@[m]@ == v@;
                    assert(strs_view(out@)[m] == v@);
                }
            }
        }
        i = i + 1;
    }
    out
}

/// The distinct non-empty event types, in order of first appearance.
pub fn get_all_event_types(records: &Vec<TimeRecord>) -> (r: Vec<String>)
    ensures
        strs_view(r@).no_duplicates(),
        forall|k: int| 0 <= k < r@.len() ==> (#[trigger] r@[k])@.len() > 0 && exists|i: int|
            0 <= i < records@.len() && records@[i].event_type@ == r@[k]@,
        forall|i: int| 0 <= i < records@.len() && (#[trigger] records@[i]).event_type@.len() > 0 ==> strs_view(r@).contains(
            records@[i].event_type@,
        ),
{
    let r = distinct_kinds(records, true);
    assert forall|i: int| 0 <= i < records@.len() && (#[trigger] records@[i]).event_type@.len() > 0 implies strs_view(r@).contains(
        records@[i].event_type@,
    ) by {
        assert(kind_of(records@[i]@, true) == records@[i].event_type@);
    }
    r
}

/// The distinct non-empty time types, in order of first appearance.
pub fn get_all_time_types(records: &Vec<TimeRecord>) -> (r: Vec<String>)
    ensures
        strs_view(r@).no_duplicates(),
        forall|k: int| 0 <= k < r@.len() ==> (#[trigger] r@[k])@.len() > 0 && exists|i: int|
            0 <= i < records@.len() && records@[i].time_type@ == r@[k]@,
        forall|i: int| 0 <= i < records@.len() && (#[trigger] records@[i]).time_type@.len() > 0 ==> strs_view(r@).contains(
            records@[i].time_type@,
        ),
{
    let r = distinct_kinds(records, false);
    assert forall|i: int| 0 <= i < records@.len() && (#[trigger] records@[i]).time_type@.len() > 0 implies strs_view(r@).contains(
        records@[i].time_type@,
    ) by {
        assert(kind_of(records@[i]@, false) == records@[i].time_type@);
    }
    r
}

/// `a` comes no later than `b` in character order (SQLite's default text
/// order, as UTF-8 bytes compare as code points do).
pub open spec fn text_le(a: Seq<char>, b: Seq<char>) -> bool
    decreases a.len(),
{
    if a.len() == 0 {
        true
    } else if b.len() == 0 {
        false
    } else if (a[0] as u32) != (b[0] as u32) {
        (a[0] as u32) < (b[0] as u32)
    } else {
        text_le(a.drop_first(), b.drop_first())
    }
}

/// The characters of a text.
fn chars_of(s: &str) -> (r: Vec<char>)
    ensures
        r@ == s@,
{
    let n = s.unicode_len();
    let mut out: Vec<char> = Vec::new();
    let mut i: usize = 0;
    while i < n
        invariant
            n == s@.len(),
            i <= n,
            out@ == s@.take(i as int),
        decreases n - i,
    {
        out.push(s.get_char(i));
        i = i + 1;
        assert(out@ =~= s@.take(i as int));
    }
    assert(s@.take(n as int) =~= s@);
    out
}

/// Whether `a` comes no later than `b` in character order.
fn text_le_exec(a: &Vec<char>, b: &Vec<char>) -> (r: bool)
    ensures
        r == text_le(a@, b@),
{
    let mut i: usize = 0;
    assert(a@.skip(0) =~= a@ && b@.skip(0) =~= b@);
    while i < a.len() && i < b.len() && (a[i] as u32) == (b[i] as u32)
        invariant
            i <= a@.len(),
            i <= b@.len(),
            text_le(a@, b@) == text_le(a@.skip(i as int), b@.skip(i as int)),
        decreases a@.len() - i,
    {
        assert(a@.skip(i as int).drop_first() =~= a@.skip(i + 1));
        assert(b@.skip(i as int).drop_first() =~= b@.skip(i + 1));
        i = i + 1;
    }
    if i == a.len() {
        assert(a@.skip(i as int).len() == 0);
        return true;
    }
    if i == b.len() {
        assert(b@.skip(i as int).len() == 0);
        return false;
    }
    assert(a@.skip(i as int)[0] == a@[i as int] && b@.skip(i as int)[0] == b@[i as int]);
    (a[i] as u32) < (b[i] as u32)
}

/// Whether a record's date lies in `[start, end]` in text order.
pub open spec fn dated_within(r: TimeRecordView, start: Seq<char>, end: Seq<char>) -> bool {
    text_le(start, r.date) && text_le(r.date, end)
}

/// The time records dated from `start` through `end` (text order, as the
/// dates are `YYYY-MM-DD`), grouped by date as `get_all_time_records`
/// groups them.
pub fn get_time_records_by_time_range(records: &Vec<TimeRecord>, start: &str, end: &str) -> (r: Vec<TimeRecordGroup>)
    ensures
        ({
            let rs = record_views(records@).filter(|t: TimeRecordView| dated_within(t, start@, end@));
            &&& forall|g: int, h: int| 0 <= g < r@.len() && 0 <= h < r@.len() && g != h ==> r@[g].date@ != r@[h].date@
            &&& forall|g: int| 0 <= g < r@.len() ==> record_views((#[trigger] r@[g]).time_records@) == date_group(rs, r@[g].date@)
            &&& forall|g: int| 0 <= g < r@.len() ==> date_used(rs, (#[trigger] r@[g]).date@)
            &&& forall|d: Seq<char>| #[trigger] date_used(rs, d) ==> exists|g: int| 0 <= g < r@.len() && (#[trigger] r@[g]).date@ == d
        }),
{
    let ghost all = record_views(records@);
    let ghost pred = |t: TimeRecordView| dated_within(t, start@, end@);
    let lo = chars_of(start);
    let hi = chars_of(end);
    let mut picked: Vec<TimeRecord> = Vec::new();
    let mut i: usize = 0;
    while i < records.len()
        invariant
            i <= all.len(),
            all == record_views(records@),
            lo@ == start@,
            hi@ == end@,
            pred == (|t: TimeRecordView| dated_within(t, start@, end@)),
            record_views(picked@) == all.take(i as int).filter(pred),
        decreases all.len() - i,
    {
        assert(all.take(i + 1).drop_last() =~= all.take(i as int));
        reveal(Seq::filter);
        let d = chars_of(records[i].date.as_str());
        assert(d@ == all[i as int].date);
        let ghost before = record_views(picked@);
        if text_le_exec(&lo, &d) && text_le_exec(&d, &hi) {
            picked.push(records[i].duplicate());
            assert(record_views(picked@) =~= before.push(all[i as int]));
        }
        i = i + 1;
    }
    assert(all.take(all.len() as int) =~= all);
    get_all_time_records(&picked)
}

proof fn lemma_date_group_empty(rs: Seq<TimeRecordView>, date: Seq<char>)
    requires
        !date_used(rs, date),
    ensures
        date_group(rs, date) == Seq::<TimeRecordView>::empty(),
    decreases rs.len(),
{
    if rs.len() > 0 {
        assert(rs[rs.len() - 1].date != date);
        assert(!date_used(rs.drop_last(), date)) by {
            if date_used(rs.drop_last(), date) {
                let k = choose|k: int| 0 <= k < rs.drop_last().len() && rs.drop_last()[k].date == date;
                assert(rs[k] == rs.drop_last()[k]);
            }
        }
        lemma_date_group_empty(rs.drop_last(), date);
    }
}

/// A drawing board.
pub struct WhiteBoard {
    pub id: i64,
    pub create_time: i64,
    pub update_time: i64,
    pub tags: Vec<String>,
    pub data: String,
    pub title: String,
    pub description: String,
    pub snapshot: String,
}

pub struct WhiteBoardView {
    pub id: i64,
    pub create_time: i64,
    pub update_time: i64,
    pub tags: Seq<Seq<char>>,
    pub data: Seq<char>,
    pub title: Seq<char>,
    pub description: Seq<char>,
    pub snapshot: Seq<char>,
}

impl View for WhiteBoard {
    type V = WhiteBoardView;

    open spec fn view(&self) -> WhiteBoardView {
        WhiteBoardView {
            id: self.id,
            create_time: self.create_time,
            update_time: self.update_time,
            tags: strs_view(self.tags@),
            data: self.data@,
            title: self.title@,
            description: self.description@,
            snapshot: self.snapshot@,
        }
    }
}

impl WhiteBoard {
    /// A field-by-field copy.
    pub fn duplicate(&self) -> (r: WhiteBoard)
        ensures
            r@ == self@,
    {
        WhiteBoard {
            id: self.id,
            create_time: self.create_time,
            update_time: self.update_time,
            tags: copy_strings(&self.tags),
            data: self.data.clone(),
            title: self.title.clone(),
            description: self.description.clone(),
            snapshot: self.snapshot.clone(),
        }
    }
}

impl Row for WhiteBoard {
    open spec fn vkey(v: WhiteBoardView) -> i64 {
        v.id
    }

    open spec fn vstamp(v: WhiteBoardView) -> i64 {
        v.update_time
    }

    open spec fn vgone(v: WhiteBoardView) -> bool {
        false
    }

    fn row_id(&self) -> (r: i64) {
        self.id
    }

    fn row_stamp(&self) -> (r: i64) {
        self.update_time
    }

    fn row_gone(&self) -> (r: bool) {
        false
    }

    fn row_copy(&self) -> (r: WhiteBoard) {
        self.duplicate()
    }
}

/// Whether two lists of strings are equal.
pub fn same_strings(a: &Vec<String>, b: &Vec<String>) -> (r: bool)
    ensures
        r == (strs_view(a@) == strs_view(b@)),
{
    if a.len() != b.len() {
        assert(strs_view(a@).len() != strs_view(b@).len());
        return false;
    }
    let mut i: usize = 0;
    while i < a.len()
        invariant
            i <= a@.len(),
            a@.len() == b@.len(),
            forall|k: int| 0 <= k < i ==> strs_view(a@)[k] == strs_view(b@)[k],
        decreases a@.len() - i,
    {
        if a[i] != b[i] {
            assert(strs_view(a@)[i as int] != strs_view(b@)[i as int]);
            return false;
        }
        i = i + 1;
    }
    assert(strs_view(a@) =~= strs_view(b@));
    true
}

/// Extra information of a speech synthesis reply.
pub struct TTSResponseAddition {
    pub duration: String,
}

/// The reply of a speech synthesis service.
pub struct TTSResponse {
    pub code: i32,
    pub reqid: String,
    pub message: String,
    pub operation: String,
    pub sequence: i32,
    pub data: Option<String>,
    pub addition: Option<TTSResponseAddition>,
}

} // verus!
