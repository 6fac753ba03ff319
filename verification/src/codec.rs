use vstd::prelude::*;

use crate::errors::Error;
use crate::item::{ItemModel, ToDoItem, TS_MAX, TS_MIN};

verus! {

/// The field map persisted under an item's record key: the title verbatim and
/// the due date as an RFC 3339 string, so the stored form is readable and
/// machine-sortable.
#[derive(Debug)]
pub struct StoredRecord {
    /// The stored `title` field.
    pub title: String,
    /// The stored `due_date` field, an RFC 3339 date-and-time string.
    pub due_date: String,
}

/// The mathematical content of a [`StoredRecord`]: both fields as character
/// sequences.
#[verifier::ext_equal]
pub ghost struct RecordModel {
    pub title: Seq<char>,
    pub due_date: Seq<char>,
}

impl View for StoredRecord {
    type V = RecordModel;

    open spec fn view(&self) -> RecordModel {
        RecordModel { title: self.title@, due_date: self.due_date@ }
    }
}

impl StoredRecord {
    /// Copies the record, field by field.
    pub fn duplicate(&self) -> (r: StoredRecord)
        ensures
            r@ == self@,
    {
        StoredRecord { title: self.title.clone(), due_date: self.due_date.clone() }
    }
}

/// The RFC 3339 rendering of a timestamp at offset `+00:00`, as
/// `chrono::DateTime::to_rfc3339` writes it. The rendering depends on the
/// timestamp alone.
pub uninterp spec fn rfc3339_of(ts: i64) -> Seq<char>;

/// The timestamp read from a string by `chrono::DateTime::parse_from_rfc3339`,
/// or `None` where the string is not a valid RFC 3339 date and time. The
/// outcome depends on the string alone.
pub uninterp spec fn rfc3339_ts(s: Seq<char>) -> Option<i64>;

/// Relies on chrono's `DateTime::from_timestamp` and `DateTime::to_rfc3339`:
/// a timestamp with a four-digit year renders as an RFC 3339 string, and
/// `DateTime::parse_from_rfc3339` reads that string back to the same
/// timestamp (chrono documents the round trip through `timestamp`).
#[verifier::external_body]
fn format_rfc3339(ts: i64) -> (r: String)
    requires
        TS_MIN <= ts <= TS_MAX,
    ensures
        r@ == rfc3339_of(ts),
        rfc3339_ts(r@) == Some(ts),
{
    match chrono::DateTime::<chrono::Utc>::from_timestamp(ts, 0) {
        Some(dt) => dt.to_rfc3339(),
        None => String::new(),
    }
}

/// Relies on chrono's `DateTime::parse_from_rfc3339` and
/// `DateTime::timestamp`: the timestamp parsed from the string, or `None` for
/// a malformed one.
#[verifier::external_body]
fn parse_rfc3339(s: &str) -> (r: Option<i64>)
    ensures
        r == rfc3339_ts(s@),
{
    match chrono::DateTime::parse_from_rfc3339(s) {
        Ok(dt) => Some(dt.timestamp()),
        Err(_) => None,
    }
}

/// The record an item is persisted as.
pub open spec fn record_of(v: ItemModel) -> RecordModel {
    RecordModel { title: v.title, due_date: rfc3339_of(v.due_ts) }
}

/// The item a record reads back as: `None` where the due-date field is
/// malformed, the timestamp falls outside the representable range, or the
/// title is empty.
pub open spec fn decoded_item(rec: RecordModel) -> Option<ItemModel> {
    match rfc3339_ts(rec.due_date) {
        Some(t) => if rec.title.len() > 0 && TS_MIN <= t <= TS_MAX {
            Some(ItemModel { title: rec.title, due_ts: t })
        } else {
            None
        },
        None => None,
    }
}

/// Writes an item as the record it is persisted as. The record reads back as
/// the very item: this is the round trip the listing relies on.
pub fn encode_record(item: &ToDoItem) -> (r: StoredRecord)
    requires
        item.wf(),
    ensures
        r@ == record_of(item@),
        decoded_item(r@) == Some(item@),
{
    let due_date = format_rfc3339(item.due_ts);
    StoredRecord { title: item.title.clone(), due_date }
}

/// Reads an item back from a stored record, validating every field: a
/// malformed record is a `ParseError`, never a crash.
pub fn decode_record(rec: &StoredRecord) -> (r: Result<ToDoItem, Error>)
    ensures
        r is Ok <==> decoded_item(rec@) is Some,
        r matches Ok(it) ==> decoded_item(rec@) == Some(it@) && it.wf(),
        r matches Err(e) ==> e == Error::ParseError,
{
    match parse_rfc3339(rec.due_date.as_str()) {
        Some(t) => ToDoItem::new(rec.title.clone(), t),
        None => Err(Error::ParseError),
    }
}

} // verus!
