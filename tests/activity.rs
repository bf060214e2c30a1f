use knowledge_store::activity::{year_start, MS_PER_DAY};
use knowledge_store::store::Store;

const JAN_1_2024: i64 = 1_704_067_200_000;

#[test]
fn year_starts() {
    assert_eq!(year_start(1970), 0);
    assert_eq!(year_start(2024), JAN_1_2024);
    assert_eq!(year_start(2025), JAN_1_2024 + 366 * MS_PER_DAY);
}

#[test]
fn records_grouped_by_day_keep_last_per_target() {
    let mut store = Store::new();
    let t0 = JAN_1_2024 + 3_600_000;
    let id = store.insert_one(vec![], vec![], "a", "p", t0).unwrap();
    store.update_one(id, vec![], vec![], "b", "p", t0 + 1000).unwrap();
    let other = store.insert_one(vec![], vec![], "c", "p", t0 + 2000).unwrap();
    store.update_one(id, vec![], vec![], "d", "p", t0 + MS_PER_DAY).unwrap();
    // last year's entry stays out
    store.insert_one(vec![], vec![], "old", "p", JAN_1_2024 - 1).unwrap();

    let days = store.get_operation_records_by_year(2024);
    assert_eq!(days.len(), 2);
    assert_eq!(days[0].time, "2024-01-01");
    let first: Vec<(i64, String)> =
        days[0].operation_list.iter().map(|o| (o.operation_id, o.operation_action.clone())).collect();
    assert_eq!(first, vec![(id, "update".to_string()), (other, "insert".to_string())]);
    assert_eq!(days[1].time, "2024-01-02");
    assert_eq!(days[1].operation_list.len(), 1);
    assert_eq!(days[1].operation_list[0].operation_time, t0 + MS_PER_DAY);

    assert_eq!(store.get_operation_records_by_year(2023).len(), 1);
    assert!(store.get_operation_records_by_year(1969).is_empty());
    assert!(store.get_operation_records_by_year(2030).is_empty());
}

#[test]
fn operation_list_latest_first() {
    let mut store = Store::new();
    let a = store.insert_one(vec![], vec![], "a", "p", 30).unwrap();
    store.update_one(a, vec![], vec![], "b", "p", 50).unwrap();
    store.insert_one(vec![], vec![], "c", "p", 40).unwrap();
    let times: Vec<i64> = store.get_operation_list().iter().map(|o| o.operation_time).collect();
    assert_eq!(times, vec![50, 40, 30]);
}

#[test]
fn records_before_1970() {
    let mut store = Store::new();
    store.insert_one(vec![], vec![], "old", "p", -MS_PER_DAY + 5).unwrap();
    let days = store.get_operation_records_by_year(1969);
    assert_eq!(days.len(), 1);
    assert_eq!(days[0].time, "1969-12-31");
    assert_eq!(year_start(1), -62_135_596_800_000);
    assert_eq!(year_start(1969), -365 * MS_PER_DAY);
}
