use knowledge_store::codec::{decode_tags, encode_tags};
use knowledge_store::store::{Store, StoreError};

fn strs(v: &[&str]) -> Vec<String> {
    v.iter().map(|s| s.to_string()).collect()
}

#[test]
fn tag_list_round_trip_keeps_order_and_repeats() {
    let tags = strs(&["a", "B", "a"]);
    let text = encode_tags(&tags);
    assert_eq!(text, "[\"a\",\"B\",\"a\"]");
    assert_eq!(decode_tags(&text).unwrap(), tags);
}

#[test]
fn corrupt_tag_text_is_refused() {
    assert_eq!(decode_tags("not json"), Err(StoreError::SerializationError));
    assert_eq!(decode_tags("[1, 2]"), Err(StoreError::SerializationError));
    assert_eq!(decode_tags("[]").unwrap(), Vec::<String>::new());
}

#[test]
fn group_by_tag_lists_a_card_once_per_tag() {
    let mut store = Store::new();
    let id = store.insert_one(strs(&["Rust", "rust"]), vec![], "x", "permanent", 1).unwrap();
    let groups = store.get_cards_group_by_tag();
    assert_eq!(groups.len(), 1);
    assert_eq!(groups[0].tag, "rust");
    assert_eq!(groups[0].cards.len(), 2);
    assert!(groups[0].cards.iter().all(|c| c.id == id && c.content == "x"));
}

#[test]
fn group_by_tag_spans_cards() {
    let mut store = Store::new();
    let a = store.insert_one(strs(&["Go", "Web"]), vec![], "a", "p", 1).unwrap();
    let b = store.insert_one(strs(&["WEB"]), vec![], "b", "p", 2).unwrap();
    let _ = store.insert_one(vec![], vec![], "c", "p", 3).unwrap();
    let groups = store.get_cards_group_by_tag();
    let mut keys: Vec<&str> = groups.iter().map(|g| g.tag.as_str()).collect();
    keys.sort();
    assert_eq!(keys, vec!["go", "web"]);
    let web = groups.iter().find(|g| g.tag == "web").unwrap();
    let ids: Vec<i64> = web.cards.iter().map(|c| c.id).collect();
    assert_eq!(ids, vec![a, b]);
}

#[test]
fn tags_of_card() {
    let mut store = Store::new();
    let id = store.insert_one(strs(&["x", "y"]), vec![], "c", "p", 1).unwrap();
    assert_eq!(store.get_tags_by_card_id(id), strs(&["x", "y"]));
    assert!(store.get_tags_by_card_id(id + 100).is_empty());
}

#[test]
fn grouping_by_supplied_keys() {
    let mut store = Store::new();
    let a = store.insert_one(strs(&["A", "b", "A"]), vec![], "a", "p", 1).unwrap();
    let b = store.insert_one(strs(&["B"]), vec![], "b", "p", 2).unwrap();
    let keys = vec![strs(&["x", "y", "x"]), strs(&["y"])];
    let groups = knowledge_store::tags::group_by_keys(&store.cards, &keys);
    assert_eq!(groups.len(), 2);
    let x = groups.iter().find(|g| g.tag == "x").unwrap();
    assert_eq!(x.cards.iter().map(|c| c.id).collect::<Vec<_>>(), vec![a, a]);
    let y = groups.iter().find(|g| g.tag == "y").unwrap();
    assert_eq!(y.cards.iter().map(|c| c.id).collect::<Vec<_>>(), vec![a, b]);
}
