use knowledge_store::hierarchy::{
    get_document_children_count, get_document_item_all_parents, init_all_document_item_parents, init_document_item_parents_by_ids,
    is_child_within, is_document_item_child_of,
};
use knowledge_store::store::Store;

fn add(store: &mut Store, children: Vec<i64>, now: i64) -> i64 {
    store
        .create_document_item("t", vec![], vec![], true, children, false, 0, false, 0, "", "", "", vec![], now)
        .unwrap()
}

fn set_children(store: &mut Store, id: i64, children: Vec<i64>) {
    let pos = store.document_items.iter().position(|d| d.id == id).unwrap();
    store.document_items[pos].children = children;
}

fn parents_of(store: &Store, id: i64) -> Vec<i64> {
    store.get_document_item(id).unwrap().parents
}

#[test]
fn chain_parents_and_descendant() {
    let mut store = Store::new();
    let c = add(&mut store, vec![], 1);
    let b = add(&mut store, vec![c], 2);
    let a = add(&mut store, vec![b], 3);
    init_all_document_item_parents(&mut store.document_items);
    assert_eq!(parents_of(&store, b), vec![a]);
    assert_eq!(parents_of(&store, c), vec![b]);
    assert_eq!(parents_of(&store, a), Vec::<i64>::new());
    assert!(is_document_item_child_of(&store.document_items, c, a));
    assert!(is_document_item_child_of(&store.document_items, b, a));
    assert!(!is_document_item_child_of(&store.document_items, a, c));
}

#[test]
fn cycle_terminates() {
    let mut store = Store::new();
    let a = add(&mut store, vec![], 1);
    let b = add(&mut store, vec![a], 2);
    set_children(&mut store, a, vec![b]);
    init_all_document_item_parents(&mut store.document_items);
    assert_eq!(parents_of(&store, a), vec![b]);
    assert_eq!(parents_of(&store, b), vec![a]);
    assert!(is_document_item_child_of(&store.document_items, a, a));
    assert!(!is_document_item_child_of(&store.document_items, 999, a));
    let mut up = get_document_item_all_parents(&store.document_items, a);
    up.sort();
    assert_eq!(up, vec![a, b]);
}

#[test]
fn depth_cap_hides_deep_descendants() {
    let mut store = Store::new();
    // a chain of 13 items, each the only child of the next one created
    let mut ids = vec![add(&mut store, vec![], 0)];
    for k in 1..13 {
        let below = *ids.last().unwrap();
        ids.push(add(&mut store, vec![below], k));
    }
    let root = *ids.last().unwrap();
    // ids[12 - n] lies n links below the root
    assert!(is_document_item_child_of(&store.document_items, ids[1], root));
    assert!(!is_document_item_child_of(&store.document_items, ids[0], root));
    assert!(is_child_within(&store.document_items, ids[0], root, 11));
}

#[test]
fn deleted_items_are_no_parents() {
    let mut store = Store::new();
    let c = add(&mut store, vec![], 1);
    let b = add(&mut store, vec![c], 2);
    let a = add(&mut store, vec![c], 3);
    store.delete_document_item(b);
    init_all_document_item_parents(&mut store.document_items);
    assert_eq!(parents_of(&store, c), vec![a]);
}

#[test]
fn parents_by_ids_touches_only_those() {
    let mut store = Store::new();
    let c = add(&mut store, vec![], 1);
    let b = add(&mut store, vec![c], 2);
    let a = add(&mut store, vec![b], 3);
    init_document_item_parents_by_ids(&mut store.document_items, &vec![c]);
    assert_eq!(parents_of(&store, c), vec![b]);
    assert_eq!(parents_of(&store, b), Vec::<i64>::new());
    let _ = a;
}

#[test]
fn all_ancestors_follow_the_cache() {
    let mut store = Store::new();
    let d = add(&mut store, vec![], 1);
    let c = add(&mut store, vec![d], 2);
    let b = add(&mut store, vec![d], 3);
    let a = add(&mut store, vec![b, c], 4);
    init_all_document_item_parents(&mut store.document_items);
    let mut up = get_document_item_all_parents(&store.document_items, d);
    up.sort();
    let mut want = vec![a, b, c];
    want.sort();
    assert_eq!(up, want);
    assert_eq!(get_document_item_all_parents(&store.document_items, a), Vec::<i64>::new());
    assert_eq!(get_document_item_all_parents(&store.document_items, 777), Vec::<i64>::new());
}

fn document(children: Vec<i64>) -> knowledge_store::records::Document {
    knowledge_store::records::Document {
        id: 1,
        create_time: 0,
        update_time: 0,
        title: "doc".to_string(),
        desc: String::new(),
        authors: vec![],
        children,
        tags: vec![],
        links: vec![],
        content: String::new(),
        banner_bg: String::new(),
        icon: String::new(),
        is_top: false,
        is_delete: false,
    }
}

#[test]
fn children_count_counts_each_item_once() {
    let mut store = Store::new();
    let d = add(&mut store, vec![], 1);
    let c = add(&mut store, vec![d], 2);
    let b = add(&mut store, vec![d], 3);
    let a = add(&mut store, vec![b, c], 4);
    assert_eq!(get_document_children_count(&store.document_items, &document(vec![a])), 4);
    assert_eq!(get_document_children_count(&store.document_items, &document(vec![b, c])), 3);
    assert_eq!(get_document_children_count(&store.document_items, &document(vec![])), 0);
    // a cycle is walked once
    set_children(&mut store, d, vec![a]);
    assert_eq!(get_document_children_count(&store.document_items, &document(vec![d])), 4);
}
