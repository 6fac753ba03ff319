use retodos::{resolve_ordinal, select_ordinal, Error, Repository, Store, StoredRecord, ToDoItem};

#[test]
fn ordinal_zero_and_beyond_count_are_rejected() {
    let mut repo = Repository::new();
    for (title, due) in [("a", 100), ("b", 200)] {
        repo.add_item(&ToDoItem::new(title.to_string(), due).unwrap())
            .unwrap();
    }
    let count = repo.list_items().unwrap().len();
    assert_eq!(resolve_ordinal(count, 0).unwrap_err(), Error::NoSuchOrdinal);
    assert_eq!(
        resolve_ordinal(count, count + 1).unwrap_err(),
        Error::NoSuchOrdinal
    );
    assert_eq!(resolve_ordinal(count, 1).unwrap(), 0);
    assert_eq!(resolve_ordinal(count, count).unwrap(), count - 1);
}

#[test]
fn a_missing_ordinal_counts_as_zero() {
    assert_eq!(select_ordinal(3, None).unwrap_err(), Error::NoSuchOrdinal);
    assert_eq!(select_ordinal(3, Some(0)).unwrap_err(), Error::NoSuchOrdinal);
    assert_eq!(select_ordinal(3, Some(4)).unwrap_err(), Error::NoSuchOrdinal);
    assert_eq!(select_ordinal(3, Some(2)).unwrap(), 1);
}

#[test]
fn ordinals_on_an_empty_list_are_rejected() {
    assert_eq!(resolve_ordinal(0, 1).unwrap_err(), Error::NoSuchOrdinal);
    assert_eq!(select_ordinal(0, Some(1)).unwrap_err(), Error::NoSuchOrdinal);
}

fn rec(title: &str, due_date: &str) -> StoredRecord {
    StoredRecord {
        title: title.to_string(),
        due_date: due_date.to_string(),
    }
}

#[test]
fn records_overwrite_at_the_same_key() {
    let mut store = Store::new();
    store.hset(1, rec("first", "1970-01-01T00:00:00+00:00"));
    store.hset(1, rec("second", "1970-01-01T00:00:00+00:00"));
    let got = store.hgetall(1).unwrap();
    assert_eq!(got.title, "second");
    assert!(store.hgetall(2).is_none());
    store.del(1);
    assert!(store.hgetall(1).is_none());
    store.del(1);
}

#[test]
fn range_reads_come_back_ascending_by_score() {
    let mut store = Store::new();
    store.zadd(10, 300);
    store.zadd(20, 100);
    store.zadd(30, 200);
    assert_eq!(store.zrange(), vec![20, 30, 10]);
    // Updating a member's score moves it.
    store.zadd(10, 50);
    assert_eq!(store.zrange(), vec![10, 20, 30]);
    store.zrem(20);
    assert_eq!(store.zrange(), vec![10, 30]);
    // Removing an absent member is a no-op.
    store.zrem(99);
    assert_eq!(store.zrange(), vec![10, 30]);
}

#[test]
fn equal_scores_keep_every_member() {
    let mut store = Store::new();
    store.zadd(1, 100);
    store.zadd(2, 100);
    store.zadd(3, 100);
    let mut members = store.zrange();
    members.sort();
    assert_eq!(members, vec![1, 2, 3]);
}
