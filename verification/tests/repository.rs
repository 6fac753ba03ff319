use retodos::{identity_of, Error, Repository, StoredRecord, ToDoItem};

fn item(title: &str, due_ts: i64) -> ToDoItem {
    ToDoItem::new(title.to_string(), due_ts).expect("valid item")
}

#[test]
fn identity_is_deterministic() {
    let a = item("Buy milk", 1431648000);
    let b = item("Buy milk", 1431648000);
    assert_eq!(identity_of(&a), identity_of(&a));
    assert_eq!(identity_of(&a), identity_of(&b));
}

#[test]
fn identity_depends_on_content() {
    let a = item("Buy milk", 1431648000);
    let b = item("Pay rent", 1431648000);
    let c = item("Buy milk", 1431648001);
    assert_ne!(identity_of(&a), identity_of(&b));
    assert_ne!(identity_of(&a), identity_of(&c));
}

#[test]
fn add_then_list_round_trips() {
    let mut repo = Repository::new();
    let x = item("Buy milk", 1431648000);
    repo.add_item(&x).unwrap();
    let items = repo.list_items().unwrap();
    assert!(items.iter().any(|it| it.title == "Buy milk" && it.due_ts == 1431648000));
}

#[test]
fn listing_is_sorted_by_due_date() {
    let mut repo = Repository::new();
    repo.add_item(&item("c", 300)).unwrap();
    repo.add_item(&item("a", 100)).unwrap();
    repo.add_item(&item("b", 200)).unwrap();
    let items = repo.list_items().unwrap();
    let due: Vec<i64> = items.iter().map(|it| it.due_ts).collect();
    assert_eq!(due, vec![100, 200, 300]);
    let titles: Vec<&str> = items.iter().map(|it| it.title.as_str()).collect();
    assert_eq!(titles, vec!["a", "b", "c"]);
}

#[test]
fn delete_removes_the_item() {
    let mut repo = Repository::new();
    let x = item("Buy milk", 100);
    let y = item("Pay rent", 200);
    repo.add_item(&x).unwrap();
    repo.add_item(&y).unwrap();
    repo.delete_item(&x).unwrap();
    let items = repo.list_items().unwrap();
    let gone = identity_of(&x);
    assert!(items.iter().all(|it| identity_of(it) != gone));
    assert_eq!(items.len(), 1);
    assert_eq!(items[0].title, "Pay rent");
}

#[test]
fn deleting_an_absent_item_succeeds() {
    let mut repo = Repository::new();
    let x = item("never added", 100);
    assert!(repo.delete_item(&x).is_ok());
    repo.add_item(&x).unwrap();
    repo.delete_item(&x).unwrap();
    assert!(repo.delete_item(&x).is_ok());
    assert!(repo.list_items().unwrap().is_empty());
}

#[test]
fn adding_twice_collides_by_design() {
    let mut repo = Repository::new();
    let x = item("same", 100);
    repo.add_item(&x).unwrap();
    repo.add_item(&x).unwrap();
    assert_eq!(repo.list_items().unwrap().len(), 1);
}

#[test]
fn update_replaces_title_and_keeps_due_date() {
    let mut repo = Repository::new();
    let x = item("Buy milk", 1431648000);
    repo.add_item(&x).unwrap();
    let replacement = repo
        .update_item(&x, Some("Buy oat milk".to_string()), None)
        .unwrap();
    assert_eq!(replacement.title, "Buy oat milk");
    assert_eq!(replacement.due_ts, 1431648000);
    let items = repo.list_items().unwrap();
    assert_eq!(items.len(), 1);
    assert_eq!(items[0].title, "Buy oat milk");
    assert_eq!(items[0].due_ts, 1431648000);
    let old_id = identity_of(&x);
    let new_id = identity_of(&replacement);
    assert_ne!(old_id, new_id);
    assert!(items.iter().all(|it| identity_of(it) != old_id));
    assert!(items.iter().any(|it| identity_of(it) == new_id));
}

#[test]
fn update_with_empty_title_is_rejected() {
    let mut repo = Repository::new();
    let x = item("Buy milk", 100);
    repo.add_item(&x).unwrap();
    let r = repo.update_item(&x, Some(String::new()), None);
    assert_eq!(r.unwrap_err(), Error::ParseError);
    let items = repo.list_items().unwrap();
    assert_eq!(items.len(), 1);
    assert_eq!(items[0].title, "Buy milk");
}

#[test]
fn scenario_two_adds_list_in_due_order() {
    let tomorrow_nine = 1431680400;
    let in_three_days = 1431856800;
    let mut repo = Repository::new();
    repo.add_item(&item("Buy milk", tomorrow_nine)).unwrap();
    repo.add_item(&item("Pay rent", in_three_days)).unwrap();
    let titles: Vec<String> = repo
        .list_items()
        .unwrap()
        .iter()
        .map(|it| it.title.clone())
        .collect();
    assert_eq!(titles, vec!["Buy milk".to_string(), "Pay rent".to_string()]);
}

#[test]
fn scenario_delete_all_empties_a_three_item_list() {
    let mut repo = Repository::new();
    repo.add_item(&item("a", 100)).unwrap();
    repo.add_item(&item("b", 200)).unwrap();
    repo.add_item(&item("c", 300)).unwrap();
    assert_eq!(repo.list_items().unwrap().len(), 3);
    repo.delete_all().unwrap();
    assert!(repo.list_items().unwrap().is_empty());
}

#[test]
fn equal_due_dates_are_all_listed() {
    let mut repo = Repository::new();
    repo.add_item(&item("a", 100)).unwrap();
    repo.add_item(&item("b", 100)).unwrap();
    let items = repo.list_items().unwrap();
    assert_eq!(items.len(), 2);
    assert!(items.iter().all(|it| it.due_ts == 100));
    let mut titles: Vec<&str> = items.iter().map(|it| it.title.as_str()).collect();
    titles.sort();
    assert_eq!(titles, vec!["a", "b"]);
}

#[test]
fn listing_reports_a_missing_record() {
    let mut repo = Repository::new();
    repo.add_item(&item("kept", 100)).unwrap();
    // An index entry whose record was never written: the inconsistency is
    // surfaced, not skipped.
    repo.store.zadd(9999, 200);
    assert_eq!(repo.list_items().unwrap_err(), Error::ItemMissing);
}

#[test]
fn listing_reports_a_malformed_record() {
    let mut repo = Repository::new();
    repo.store.hset(
        7,
        StoredRecord {
            title: "broken".to_string(),
            due_date: "not a date".to_string(),
        },
    );
    repo.store.zadd(7, 100);
    assert_eq!(repo.list_items().unwrap_err(), Error::ParseError);
}
