use knowledge_store::records::{get_all_time_records, TimeRecord};

fn rec(id: i64, date: &str, cost: i64) -> TimeRecord {
    TimeRecord {
        id,
        date: date.to_string(),
        cost,
        content: format!("r{id}"),
        event_type: "work".to_string(),
        time_type: "focus".to_string(),
    }
}

#[test]
fn time_records_grouped_by_date() {
    let records = vec![rec(1, "2024-05-02", 30), rec(2, "2024-05-01", 10), rec(3, "2024-05-02", 5)];
    let groups = get_all_time_records(&records);
    assert_eq!(groups.len(), 2);
    assert_eq!(groups[0].date, "2024-05-02");
    let ids: Vec<i64> = groups[0].time_records.iter().map(|r| r.id).collect();
    assert_eq!(ids, vec![1, 3]);
    assert_eq!(groups[1].date, "2024-05-01");
    assert_eq!(groups[1].time_records.len(), 1);
    assert_eq!(groups[1].time_records[0].cost, 10);
    assert!(get_all_time_records(&vec![]).is_empty());
}

fn snap(id: i64, time: i64, ty: &str, target: i64) -> knowledge_store::records::History {
    knowledge_store::records::History {
        id,
        create_time: time,
        content: format!("v{id}"),
        content_type: ty.to_string(),
        content_id: target,
    }
}

fn query(size: i64, number: i64) -> knowledge_store::records::Query {
    knowledge_store::records::Query { page_size: size, page_number: number, content_type: "card".to_string(), content_id: 1 }
}

#[test]
fn history_pages_latest_first() {
    let log = vec![
        snap(1, 10, "card", 1),
        snap(2, 30, "card", 1),
        snap(3, 20, "card", 1),
        snap(4, 40, "card", 2),
        snap(5, 50, "article", 1),
    ];
    let ids = |v: Vec<knowledge_store::records::History>| v.iter().map(|h| h.id).collect::<Vec<_>>();
    let list = knowledge_store::history::get_history_list;
    assert_eq!(ids(list(&log, &query(2, 1))), vec![2, 3]);
    assert_eq!(ids(list(&log, &query(2, 2))), vec![1]);
    assert!(list(&log, &query(2, 3)).is_empty());
    assert_eq!(ids(list(&log, &query(-1, 1))), vec![2, 3, 1]);
    assert_eq!(ids(list(&log, &query(2, 0))), vec![2, 3]);
    assert!(list(&log, &query(0, 1)).is_empty());
}

#[test]
fn distinct_event_and_time_types() {
    let mut records = vec![rec(1, "d", 1), rec(2, "d", 1), rec(3, "d", 1), rec(4, "d", 1)];
    records[1].event_type = "rest".to_string();
    records[2].event_type = String::new();
    records[3].event_type = "rest".to_string();
    records[3].time_type = "idle".to_string();
    assert_eq!(knowledge_store::records::get_all_event_types(&records), vec!["work".to_string(), "rest".to_string()]);
    assert_eq!(knowledge_store::records::get_all_time_types(&records), vec!["focus".to_string(), "idle".to_string()]);
}

#[test]
fn time_records_in_a_date_range() {
    let records = vec![
        rec(1, "2024-05-03", 1),
        rec(2, "2024-05-01", 2),
        rec(3, "2024-04-30", 3),
        rec(4, "2024-05-01", 4),
        rec(5, "2024-05-10", 5),
    ];
    let groups = knowledge_store::records::get_time_records_by_time_range(&records, "2024-05-01", "2024-05-03");
    let got: Vec<(String, Vec<i64>)> =
        groups.iter().map(|g| (g.date.clone(), g.time_records.iter().map(|r| r.id).collect())).collect();
    assert_eq!(got, vec![("2024-05-03".to_string(), vec![1]), ("2024-05-01".to_string(), vec![2, 4])]);
    assert!(knowledge_store::records::get_time_records_by_time_range(&records, "2024-06-01", "2024-05-01").is_empty());
}
