use knowledge_store::entity::DocumentItem;
use knowledge_store::records::Message;
use knowledge_store::store::{Store, StoreError};

fn strs(v: &[&str]) -> Vec<String> {
    v.iter().map(|s| s.to_string()).collect()
}

fn add_item(store: &mut Store, children: Vec<i64>, is_card: bool, card_id: i64, content: &str, now: i64) -> i64 {
    store
        .create_document_item("t", vec![], vec![], false, children, false, 0, is_card, card_id, content, "", "", vec![], now)
        .unwrap()
}

#[test]
fn create_then_get_card() {
    let mut store = Store::new();
    let id = store.insert_one(strs(&["a", "b"]), vec![7], "hello", "permanent", 100).unwrap();
    let c = store.find_one(id).unwrap();
    assert_eq!(c.id, id);
    assert_eq!(c.create_time, 100);
    assert_eq!(c.update_time, 100);
    assert_eq!(c.tags, strs(&["a", "b"]));
    assert_eq!(c.links, vec![7]);
    assert_eq!(c.content, "hello");
    assert_eq!(c.category, "permanent");
    assert_eq!(store.operations.len(), 1);
    assert_eq!(store.operations[0].operation_action, "insert");
    assert_eq!(store.operations[0].operation_content_type, "card");
    assert_eq!(store.operations[0].operation_id, id);
}

#[test]
fn update_then_get_card() {
    let mut store = Store::new();
    let id = store.insert_one(strs(&["a"]), vec![], "one", "c", 100).unwrap();
    assert_eq!(store.update_one(id, strs(&["z"]), vec![3], "two", "d", 150), Ok(1));
    let c = store.find_one(id).unwrap();
    assert!(c.update_time > 100);
    assert_eq!(c.create_time, 100);
    assert_eq!(c.tags, strs(&["z"]));
    assert_eq!(c.content, "two");
    assert_eq!(c.category, "d");
    assert_eq!(store.update_one(9999, vec![], vec![], "x", "y", 200), Ok(0));
}

#[test]
fn missing_card_is_not_found() {
    let store = Store::new();
    assert!(matches!(store.find_one(42), Err(StoreError::NotFound)));
}

#[test]
fn card_wrapper_edit_reaches_card_and_sibling() {
    let mut store = Store::new();
    let c = store.insert_one(vec![], vec![], "old", "permanent", 10).unwrap();
    let d1 = add_item(&mut store, vec![], true, c, "old", 11);
    let d2 = add_item(&mut store, vec![], true, c, "old", 12);
    let other = add_item(&mut store, vec![], false, 0, "keep", 13);
    let got = store
        .update_document_item(d1, "t", vec![], vec![], false, vec![], false, 0, true, c, "new", "", "", vec![], 20)
        .unwrap();
    assert_eq!(got.content, "new");
    assert_eq!(store.find_one(c).unwrap().content, "new");
    assert_eq!(store.get_document_item(d2).unwrap().content, "new");
    assert_eq!(store.get_document_item(d1).unwrap().content, "new");
    assert_eq!(store.get_document_item(other).unwrap().content, "keep");
}

#[test]
fn card_edit_reaches_wrappers() {
    let mut store = Store::new();
    let c = store.insert_one(vec![], vec![], "old", "permanent", 10).unwrap();
    let d = add_item(&mut store, vec![], true, c, "old", 11);
    let p = store
        .create_project_item("p".to_string(), "old".to_string(), vec![], vec![], vec![], "card".to_string(), c, 12)
        .unwrap();
    store.update_one(c, vec![], vec![], "fresh", "permanent", 30).unwrap();
    assert_eq!(store.get_document_item(d).unwrap().content, "fresh");
    assert_eq!(store.get_document_item(d).unwrap().update_time, 30);
    assert_eq!(store.get_project_item_by_id(p.id).unwrap().content, "fresh");
}

#[test]
fn article_soft_delete_keeps_row() {
    let mut store = Store::new();
    let a = store
        .create_article("T".into(), "me".into(), vec![], vec![], "body".into(), "".into(), false, 5)
        .unwrap();
    let b = store
        .create_article("U".into(), "me".into(), vec![], vec![], "body".into(), "".into(), false, 6)
        .unwrap();
    assert_eq!(store.delete_article(a.id), 1);
    let got = store.find_article(a.id).unwrap();
    assert!(got.is_delete);
    let listed = store.find_all_articles();
    assert_eq!(listed.len(), 1);
    assert_eq!(listed[0].id, b.id);
    assert_eq!(store.delete_article(12345), 0);
}

#[test]
fn lists_are_latest_first() {
    let mut store = Store::new();
    let a = store.insert_one(vec![], vec![], "a", "x", 10).unwrap();
    let b = store.insert_one(vec![], vec![], "b", "x", 30).unwrap();
    let c = store.insert_one(vec![], vec![], "c", "x", 20).unwrap();
    let ids: Vec<i64> = store.find_all().iter().map(|c| c.id).collect();
    assert_eq!(ids, vec![b, c, a]);
    assert_eq!(store.delete_one(b), 1);
    let ids: Vec<i64> = store.find_all().iter().map(|c| c.id).collect();
    assert_eq!(ids, vec![c, a]);
}

#[test]
fn item_list_skips_deleted() {
    let mut store = Store::new();
    let a = add_item(&mut store, vec![], false, 0, "a", 1);
    let b = add_item(&mut store, vec![], false, 0, "b", 2);
    store.delete_document_item(a);
    let all: Vec<DocumentItem> = store.get_all_document_items();
    assert_eq!(all.len(), 1);
    assert_eq!(all[0].id, b);
}

#[test]
fn article_banner_and_pin() {
    let mut store = Store::new();
    let a = store
        .create_article("T".into(), "me".into(), vec![], vec![], "body".into(), "".into(), false, 5)
        .unwrap();
    assert_eq!(store.update_banner_bg(a.id, "blue".to_string(), 9), 1);
    assert_eq!(store.update_is_top(a.id, true, 10), 1);
    let got = store.find_article(a.id).unwrap();
    assert_eq!(got.banner_bg, "blue");
    assert!(got.is_top);
    assert_eq!(got.update_time, 10);
    assert_eq!(store.update_is_top(a.id + 50, true, 11), 0);
}

#[test]
fn items_by_ids_and_project_items_by_ref() {
    let mut store = Store::new();
    let a = add_item(&mut store, vec![], false, 0, "a", 1);
    let b = add_item(&mut store, vec![], false, 0, "b", 2);
    let got = store.get_document_items_by_ids(&vec![b, a]).unwrap();
    assert_eq!(got.iter().map(|d| d.id).collect::<Vec<_>>(), vec![b, a]);
    assert!(matches!(store.get_document_items_by_ids(&vec![a, 999]), Err(StoreError::NotFound)));
    let p1 = store
        .create_project_item("p".into(), "c".into(), vec![], vec![], vec![], "card".into(), 7, 3)
        .unwrap();
    store
        .create_project_item("q".into(), "c".into(), vec![], vec![], vec![], "article".into(), 7, 4)
        .unwrap();
    let found = store.get_project_items_by_ref("card", 7);
    assert_eq!(found.len(), 1);
    assert_eq!(found[0].id, p1.id);
}

#[test]
fn article_edit_reaches_wrappers_with_title() {
    let mut store = Store::new();
    let a = store
        .create_article("Old".into(), "me".into(), vec![], vec![], "old".into(), "".into(), false, 1)
        .unwrap();
    let d = store
        .create_document_item("Old", vec![], vec![], false, vec![], true, a.id, false, 0, "old", "", "", vec![], 2)
        .unwrap();
    let p = store
        .create_project_item("Old".into(), "old".into(), vec![], vec![], vec![], "article".into(), a.id, 3)
        .unwrap();
    store
        .update_article(a.id, "New".into(), "me".into(), vec![], vec![], "new".into(), "".into(), false, 4)
        .unwrap();
    let item = store.get_document_item(d).unwrap();
    assert_eq!((item.title.as_str(), item.content.as_str()), ("New", "new"));
    let pi = store.get_project_item_by_id(p.id).unwrap();
    assert_eq!((pi.title.as_str(), pi.content.as_str()), ("New", "new"));
}

#[test]
fn project_item_edit_reaches_card_and_siblings() {
    let mut store = Store::new();
    let c = store.insert_one(vec![], vec![], "old", "permanent", 1).unwrap();
    let p1 = store
        .create_project_item("a".into(), "old".into(), vec![], vec![], vec![], "card".into(), c, 2)
        .unwrap();
    let p2 = store
        .create_project_item("b".into(), "old".into(), vec![], vec![], vec![], "card".into(), c, 3)
        .unwrap();
    let got = store
        .update_project_item(p1.id, "a".into(), "new".into(), vec![], vec![], vec![], "card".into(), c, 4)
        .unwrap();
    assert_eq!(got.content, "new");
    assert_eq!(store.find_one(c).unwrap().content, "new");
    assert_eq!(store.get_project_item_by_id(p2.id).unwrap().content, "new");
    assert_eq!(store.delete_project_item(p2.id, 5), 1);
    assert!(matches!(store.get_project_item_by_id(p2.id), Err(StoreError::NotFound)));
    assert_eq!(store.operations.last().unwrap().operation_action, "delete");
}

#[test]
fn ids_exhausted_is_a_constraint_violation() {
    let mut store = Store::new();
    store.next_id = i64::MAX;
    assert_eq!(store.insert_one(vec![], vec![], "x", "p", 1), Err(StoreError::ConstraintViolation));
    assert!(store.cards.is_empty());
}

#[test]
fn writes_stand_when_the_log_runs_out_of_ids() {
    let mut store = Store::new();
    store.next_id = i64::MAX - 1;
    let id = store.insert_one(vec![], vec![], "x", "p", 1).unwrap();
    assert_eq!(id, i64::MAX - 1);
    assert!(store.operations.is_empty());
    assert_eq!(store.update_one(id, vec![], vec![], "y", "p", 2), Ok(1));
    assert_eq!(store.find_one(id).unwrap().content, "y");
    assert!(store.operations.is_empty());
}

#[test]
fn documents_listed_with_item_counts() {
    let mut store = Store::new();
    let c = add_item(&mut store, vec![], false, 0, "c", 1);
    let b = add_item(&mut store, vec![c], false, 0, "b", 2);
    let d1 = store
        .create_document("one", "", vec![], vec![b], vec![], vec![], "", "", "", 10)
        .unwrap();
    let d2 = store
        .create_document("two", "", vec![], vec![c], vec![], vec![], "", "", "", 20)
        .unwrap();
    let d3 = store
        .create_document("three", "", vec![], vec![], vec![], vec![], "", "", "", 30)
        .unwrap();
    assert_eq!(store.delete_document(d3), 1);
    assert!(store.get_document(d3).unwrap().is_delete);
    let list = store.get_document_list().unwrap();
    let got: Vec<(i64, i64)> = list.iter().map(|w| (w.document.id, w.count)).collect();
    assert_eq!(got, vec![(d2, 1), (d1, 2)]);
    assert_eq!(
        store.update_document(d1, "uno", "", vec![], vec![], vec![], vec![], "", "", "", true, 40),
        Ok(1)
    );
    let doc = store.get_document(d1).unwrap();
    assert_eq!(doc.title, "uno");
    assert!(doc.is_top);
    assert_eq!(doc.create_time, 10);
    assert_eq!(store.get_document_list().unwrap()[0].document.id, d1);
    assert_eq!(store.update_document(999, "x", "", vec![], vec![], vec![], vec![], "", "", "", false, 50), Ok(0));
}

#[test]
fn projects_and_membership() {
    let mut store = Store::new();
    let p = store.create_project("P".into(), "d".into(), vec![], 10).unwrap();
    let q = store.create_project("Q".into(), "d".into(), vec![], 20).unwrap();
    let ids: Vec<i64> = store.get_project_list().iter().map(|x| x.id).collect();
    assert_eq!(ids, vec![q.id, p.id]);
    let updated = store.update_project(p.id, "P2".into(), "e".into(), vec![5], 30).unwrap();
    assert_eq!(updated.title, "P2");
    assert_eq!(updated.create_time, 10);
    assert_eq!(store.get_project_by_id(p.id).unwrap().children, vec![5]);
    assert!(matches!(store.update_project(999, "x".into(), "".into(), vec![], 31), Err(StoreError::NotFound)));

    let a = store
        .create_project_item("a".into(), "".into(), vec![], vec![], vec![p.id], "".into(), 0, 40)
        .unwrap();
    let b = store
        .create_project_item("b".into(), "".into(), vec![], vec![], vec![p.id, q.id], "".into(), 0, 41)
        .unwrap();
    let c = store
        .create_project_item("c".into(), "".into(), vec![], vec![], vec![], "".into(), 0, 42)
        .unwrap();
    assert_eq!(store.get_project_item_count_in_project(p.id), 2);
    assert_eq!(store.get_project_item_count_in_project(q.id), 1);
    let outside: Vec<i64> = store.get_all_project_items_not_in_project(q.id).iter().map(|x| x.id).collect();
    assert_eq!(outside, vec![a.id, c.id]);
    let loose: Vec<i64> = store.get_project_items_not_in_any_project().iter().map(|x| x.id).collect();
    assert_eq!(loose, vec![c.id]);
    assert_eq!(store.is_project_item_not_in_any_project(c.id), Ok(true));
    assert_eq!(store.is_project_item_not_in_any_project(b.id), Ok(false));
    assert_eq!(store.is_project_item_not_in_any_project(999), Err(StoreError::NotFound));

    assert_eq!(store.delete_project(q.id, 50), 1);
    assert!(matches!(store.get_project_by_id(q.id), Err(StoreError::NotFound)));
    assert_eq!(store.delete_project(q.id, 51), 0);
    let last = store.operations.last().unwrap();
    assert_eq!((last.operation_content_type.as_str(), last.operation_action.as_str()), ("project", "delete"));
}

#[test]
fn time_records_and_daily_notes() {
    let mut store = Store::new();
    let a = store.create_time_record("2024-05-01", 30, "read", "study", "focus", 1).unwrap();
    let b = store.create_time_record("2024-05-02", 10, "walk", "rest", "idle", 2).unwrap();
    let got = store.update_time_record(a.id, "2024-05-02", 45, "read more", "study", "focus", 3).unwrap();
    assert_eq!(got.cost, 45);
    let same_day: Vec<i64> = store.get_time_records_by_date("2024-05-02").iter().map(|t| t.id).collect();
    assert_eq!(same_day, vec![a.id, b.id]);
    let groups = knowledge_store::records::get_all_time_records(&store.time_records);
    assert_eq!(groups.len(), 1);
    assert_eq!(store.delete_time_record(b.id), 1);
    assert!(matches!(store.get_time_record_by_id(b.id), Err(StoreError::NotFound)));
    assert!(matches!(store.update_time_record(b.id, "x", 0, "", "", "", 4), Err(StoreError::NotFound)));

    let n = store.insert_daily_note("2024-05-01", "hello", 5).unwrap();
    let m = store.insert_daily_note("2024-05-01", "again", 6).unwrap();
    assert_eq!(store.update_daily_note(n, "hi", 7), Ok(1));
    assert_eq!(store.get_daily_note_by_date("2024-05-01").unwrap().content, "hi");
    assert!(matches!(store.get_daily_note_by_date("1999-01-01"), Err(StoreError::NotFound)));
    assert_eq!(store.delete_daily_note(n), 1);
    assert_eq!(store.get_daily_note_by_date("2024-05-01").unwrap().id, m);
    assert_eq!(store.get_daily_notes().len(), 1);
    assert_eq!(store.get_daily_note_by_id(m).unwrap().content, "again");
    assert_eq!(store.update_daily_note(n, "gone", 8), Ok(0));
}

#[test]
fn white_boards_by_exact_tags() {
    let mut store = Store::new();
    let a = store.create_white_board(strs(&["x"]), "{}", "A", "", "", 1).unwrap();
    let b = store.create_white_board(strs(&["x", "y"]), "{}", "B", "", "", 2).unwrap();
    let found: Vec<i64> = store.get_white_boards_by_tags(&strs(&["x"])).iter().map(|w| w.id).collect();
    assert_eq!(found, vec![a.id]);
    let got = store.update_white_board(b.id, strs(&["x"]), "{1}", "B2", "d", "s", 3).unwrap();
    assert_eq!(got.title, "B2");
    assert_eq!(got.create_time, 2);
    let found: Vec<i64> = store.get_white_boards_by_tags(&strs(&["x"])).iter().map(|w| w.id).collect();
    assert_eq!(found, vec![a.id, b.id]);
    assert_eq!(store.delete_white_board(a.id), 1);
    assert_eq!(store.get_all_white_boards().len(), 1);
    assert!(matches!(store.get_white_board_by_id(a.id), Err(StoreError::NotFound)));
}

#[test]
fn pdfs_highlights_and_chats() {
    let mut store = Store::new();
    let p = store.add_pdf(&strs(&["paper"]), true, "default", "a.pdf", "/tmp/a.pdf", "", 1).unwrap();
    let q = store.add_pdf(&vec![], false, "web", "b.pdf", "", "http://x", 2).unwrap();
    let got = store.update_pdf(p.id, &strs(&["paper", "ml"]), true, "read", "a.pdf", "/tmp/a.pdf", "", 3).unwrap();
    assert_eq!(got.tags, strs(&["paper", "ml"]));
    assert_eq!(got.create_time, 1);
    assert_eq!(store.get_pdf_list().len(), 2);
    let h1 = store.add_highlight(p.id, "red", "text", "[]", "{}", "", 3, "quote", "", "note", 4).unwrap();
    store.add_highlight(q.id, "blue", "area", "[]", "{}", "", 1, "", "img", "", 5).unwrap();
    let hs: Vec<i64> = store.get_highlights(p.id).iter().map(|h| h.id).collect();
    assert_eq!(hs, vec![h1.id]);
    assert_eq!(store.update_highlight(h1.id, p.id, "green", "text", "[]", "{}", "", 3, "quote", "", "n2", 6).unwrap().color, "green");
    assert_eq!(store.remove_highlight(h1.id), 1);
    assert!(matches!(store.get_highlight_by_id(h1.id), Err(StoreError::NotFound)));
    assert_eq!(store.remove_pdf(q.id), 1);
    assert!(matches!(store.get_pdf(q.id), Err(StoreError::NotFound)));

    let m = |r: &str, c: &str| Message { role: r.to_string(), content: c.to_string() };
    let chat = store.create_chat_message(vec![m("user", "hi")], "greeting", 7).unwrap();
    let chat2 = store.update_chat_message(chat.id, vec![m("user", "hi"), m("assistant", "hello")], "greeting", 8).unwrap();
    assert_eq!(chat2.messages.len(), 2);
    assert_eq!(store.get_chat_message_by_id(chat.id).unwrap().messages[1].content, "hello");
    assert_eq!(store.get_chat_messages().len(), 1);
    assert_eq!(store.delete_chat_message(chat.id), 1);
    assert!(store.get_chat_messages().is_empty());
}

#[test]
fn bulk_deletes_of_project_items() {
    let mut store = Store::new();
    let a = store.create_project_item("a".into(), "".into(), vec![], vec![], vec![1], "".into(), 0, 1).unwrap();
    let b = store.create_project_item("b".into(), "".into(), vec![], vec![], vec![], "".into(), 0, 2).unwrap();
    let c = store.create_project_item("c".into(), "".into(), vec![], vec![], vec![2], "".into(), 0, 3).unwrap();
    assert_eq!(store.delete_project_items_not_in_any_project(4), Ok(1));
    assert!(matches!(store.get_project_item_by_id(b.id), Err(StoreError::NotFound)));
    let last = store.operations.last().unwrap();
    assert_eq!((last.operation_action.as_str(), last.operation_id), ("delete", b.id));
    assert_eq!(store.delete_all_project_items_not_in_project(1, 5), Ok(1));
    assert!(matches!(store.get_project_item_by_id(c.id), Err(StoreError::NotFound)));
    assert_eq!(store.get_project_item_by_id(a.id).unwrap().title, "a");
    assert_eq!(store.delete_all_project_items_not_in_project(1, 6), Ok(0));
}

#[test]
fn wrapper_edit_reaches_project_item_with_same_id() {
    // ids are unique per table only: a project item may share the edited
    // document item's id and must still be mirrored
    let mut store = Store::new();
    store.cards.push(knowledge_store::entity::Card {
        id: 1,
        create_time: 0,
        update_time: 0,
        tags: vec![],
        links: vec![],
        content: "old".into(),
        category: "p".into(),
    });
    store.document_items.push(DocumentItem {
        id: 2,
        create_time: 0,
        update_time: 0,
        title: "t".into(),
        authors: vec![],
        tags: vec![],
        is_directory: false,
        children: vec![],
        is_article: false,
        article_id: 0,
        is_card: true,
        card_id: 1,
        content: "old".into(),
        banner_bg: String::new(),
        icon: String::new(),
        is_delete: false,
        parents: vec![],
    });
    store.project_items.push(knowledge_store::entity::ProjectItem {
        id: 2,
        create_time: 0,
        update_time: 0,
        title: "p".into(),
        content: "old".into(),
        children: vec![],
        parents: vec![],
        projects: vec![],
        ref_type: "card".into(),
        ref_id: 1,
    });
    store.next_id = 3;
    store
        .update_document_item(2, "t", vec![], vec![], false, vec![], false, 0, true, 1, "new", "", "", vec![], 5)
        .unwrap();
    assert_eq!(store.find_one(1).unwrap().content, "new");
    assert_eq!(store.get_project_item_by_id(2).unwrap().content, "new");
}

#[test]
fn project_item_edit_retitles_card_bound_siblings() {
    let mut store = Store::new();
    let c = store.insert_one(vec![], vec![], "old", "permanent", 1).unwrap();
    let p1 = store
        .create_project_item("a".into(), "old".into(), vec![], vec![], vec![], "card".into(), c, 2)
        .unwrap();
    let p2 = store
        .create_project_item("b".into(), "old".into(), vec![], vec![], vec![], "card".into(), c, 3)
        .unwrap();
    store
        .update_project_item(p1.id, "renamed".into(), "new".into(), vec![], vec![], vec![], "card".into(), c, 4)
        .unwrap();
    let sib = store.get_project_item_by_id(p2.id).unwrap();
    assert_eq!((sib.title.as_str(), sib.content.as_str()), ("renamed", "new"));
    // an unset reference fans out nowhere
    let p3 = store
        .create_project_item("x".into(), "keep".into(), vec![], vec![], vec![], "card".into(), 0, 5)
        .unwrap();
    let p4 = store
        .create_project_item("y".into(), "keep".into(), vec![], vec![], vec![], "card".into(), 0, 6)
        .unwrap();
    store
        .update_project_item(p3.id, "x2".into(), "changed".into(), vec![], vec![], vec![], "card".into(), 0, 7)
        .unwrap();
    assert_eq!(store.get_project_item_by_id(p4.id).unwrap().content, "keep");
}
