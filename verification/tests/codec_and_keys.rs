use retodos::{
    decode_record, encode_record, index_key, record_key, u64_to_dec, Error, StoredRecord, ToDoItem,
    TS_MAX, TS_MIN,
};

#[test]
fn encode_writes_rfc3339_at_utc() {
    let epoch = ToDoItem::new("a".to_string(), 0).unwrap();
    assert_eq!(encode_record(&epoch).due_date, "1970-01-01T00:00:00+00:00");
    let later = ToDoItem::new("b".to_string(), 1431648000).unwrap();
    let rec = encode_record(&later);
    assert_eq!(rec.title, "b");
    assert_eq!(rec.due_date, "2015-05-15T00:00:00+00:00");
}

#[test]
fn encode_agrees_with_an_independent_parser() {
    let it = ToDoItem::new("x".to_string(), 851042397).unwrap();
    let rec = encode_record(&it);
    let parsed = chrono::DateTime::parse_from_rfc3339(&rec.due_date).unwrap();
    assert_eq!(parsed.timestamp(), 851042397);
}

#[test]
fn decode_reads_an_encoded_record_back() {
    let it = ToDoItem::new("Buy milk".to_string(), 1431648000).unwrap();
    let back = decode_record(&encode_record(&it)).unwrap();
    assert_eq!(back.title, "Buy milk");
    assert_eq!(back.due_ts, 1431648000);
}

#[test]
fn decode_accepts_an_offset_and_normalizes_it() {
    let rec = StoredRecord {
        title: "x".to_string(),
        due_date: "1996-12-19T16:39:57-08:00".to_string(),
    };
    assert_eq!(decode_record(&rec).unwrap().due_ts, 851042397);
}

#[test]
fn encode_and_decode_at_the_range_boundaries() {
    let earliest = ToDoItem::new("x".to_string(), TS_MIN).unwrap();
    let earliest_rec = encode_record(&earliest);
    assert_eq!(earliest_rec.due_date, "0000-01-01T00:00:00+00:00");
    assert_eq!(decode_record(&earliest_rec).unwrap().due_ts, TS_MIN);

    let latest = ToDoItem::new("x".to_string(), TS_MAX).unwrap();
    let latest_rec = encode_record(&latest);
    assert_eq!(latest_rec.due_date, "9999-12-31T23:59:59+00:00");
    assert_eq!(decode_record(&latest_rec).unwrap().due_ts, TS_MAX);
}

#[test]
fn decode_rejects_malformed_fields() {
    let bad_date = StoredRecord {
        title: "x".to_string(),
        due_date: "yesterday-ish".to_string(),
    };
    assert_eq!(decode_record(&bad_date).unwrap_err(), Error::ParseError);
    let empty_title = StoredRecord {
        title: String::new(),
        due_date: "1970-01-01T00:00:00+00:00".to_string(),
    };
    assert_eq!(decode_record(&empty_title).unwrap_err(), Error::ParseError);
}

#[test]
fn item_construction_validates_its_fields() {
    assert_eq!(
        ToDoItem::new(String::new(), 0).unwrap_err(),
        Error::ParseError
    );
    assert_eq!(
        ToDoItem::new("x".to_string(), i64::MAX).unwrap_err(),
        Error::ParseError
    );
    assert_eq!(
        ToDoItem::new("x".to_string(), i64::MIN).unwrap_err(),
        Error::ParseError
    );
    let it = ToDoItem::new("x".to_string(), -1).unwrap();
    assert_eq!(it.due_ts, -1);
}

#[test]
fn reuse_carries_fields_over() {
    let x = ToDoItem::new("old".to_string(), 100).unwrap();
    let kept = x.reuse(None, None).unwrap();
    assert_eq!(kept.title, "old");
    assert_eq!(kept.due_ts, 100);
    let renamed = x.reuse(Some("new".to_string()), None).unwrap();
    assert_eq!(renamed.title, "new");
    assert_eq!(renamed.due_ts, 100);
    let moved = x.reuse(None, Some(200)).unwrap();
    assert_eq!(moved.title, "old");
    assert_eq!(moved.due_ts, 200);
    assert_eq!(x.reuse(Some(String::new()), None).unwrap_err(), Error::ParseError);
}

#[test]
fn decimal_rendering_is_exact() {
    assert_eq!(u64_to_dec(0), "0");
    assert_eq!(u64_to_dec(7), "7");
    assert_eq!(u64_to_dec(10), "10");
    assert_eq!(u64_to_dec(1234567890), "1234567890");
    assert_eq!(u64_to_dec(u64::MAX), "18446744073709551615");
}

#[test]
fn keys_follow_the_store_layout() {
    assert_eq!(record_key(42), "retodos/items/42");
    assert_eq!(record_key(0), "retodos/items/0");
    assert_eq!(index_key(), "retodos/items/index");
}
