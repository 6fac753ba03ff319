use vstd::prelude::*;

use crate::errors::Error;

verus! {

/// Earliest due date the library stores: year 0, the first instant that still
/// renders as a four-digit RFC 3339 year.
pub const TS_MIN: i64 = -62167219200;

/// Latest due date the library stores: the last second of year 9999, the last
/// instant that still renders as a four-digit RFC 3339 year.
pub const TS_MAX: i64 = 253402300799;

/// Offset basis of the 64-bit FNV-1a hash.
pub const FNV_OFFSET: u64 = 0xcbf29ce484222325;

/// Prime of the 64-bit FNV-1a hash.
pub const FNV_PRIME: u64 = 0x100000001b3;

/// A to-do item: a title and a due date, the latter held as non-leap seconds
/// since the Unix epoch, UTC. Immutable once constructed; an update builds a
/// replacement item instead of mutating in place.
#[derive(Debug)]
pub struct ToDoItem {
    /// The title of the to-do item.
    pub title: String,
    /// The due date of the to-do item, as a Unix timestamp in seconds.
    pub due_ts: i64,
}

/// The mathematical content of a [`ToDoItem`]: its title as a character
/// sequence and its due date as a timestamp.
#[verifier::ext_equal]
pub ghost struct ItemModel {
    pub title: Seq<char>,
    pub due_ts: i64,
}

impl View for ToDoItem {
    type V = ItemModel;

    open spec fn view(&self) -> ItemModel {
        ItemModel { title: self.title@, due_ts: self.due_ts }
    }
}

/// A well-formed item has a non-empty title and a due date inside the range
/// the record format can represent.
pub open spec fn wf_item(v: ItemModel) -> bool {
    &&& v.title.len() > 0
    &&& TS_MIN <= v.due_ts <= TS_MAX
}

impl ToDoItem {
    /// Whether this item is well formed. Constructors establish this and every
    /// operation of the library preserves it.
    pub open spec fn wf(&self) -> bool {
        wf_item(self@)
    }

    /// Builds an item from a title and a due-date timestamp, rejecting an
    /// empty title or a timestamp outside the representable range.
    pub fn new(title: String, due_ts: i64) -> (r: Result<ToDoItem, Error>)
        ensures
            r is Ok <==> (title@.len() > 0 && TS_MIN <= due_ts <= TS_MAX),
            r matches Ok(it) ==> it@ == (ItemModel { title: title@, due_ts }) && it.wf(),
            r matches Err(e) ==> e == Error::ParseError,
    {
        if title.as_str().is_empty() || due_ts < TS_MIN || due_ts > TS_MAX {
            Err(Error::ParseError)
        } else {
            Ok(ToDoItem { title, due_ts })
        }
    }

    /// Builds the replacement item for an update: fields given as `Some` are
    /// replaced, fields given as `None` are carried over from `self`.
    pub fn reuse(&self, title: Option<String>, due_ts: Option<i64>) -> (r: Result<
        ToDoItem,
        Error,
    >)
        requires
            self.wf(),
        ensures
            r is Ok <==> {
                &&& (title matches Some(t) ==> t@.len() > 0)
                &&& (due_ts matches Some(d) ==> TS_MIN <= d <= TS_MAX)
            },
            r matches Ok(it) ==> {
                &&& it@.title == (if title is Some {
                    title.unwrap()@
                } else {
                    self@.title
                })
                &&& it@.due_ts == (if due_ts is Some {
                    due_ts.unwrap()
                } else {
                    self@.due_ts
                })
                &&& it.wf()
            },
            r matches Err(e) ==> e == Error::ParseError,
    {
        let new_title = match title {
            Some(t) => t,
            None => self.title.clone(),
        };
        let new_due_ts = match due_ts {
            Some(d) => d,
            None => self.due_ts,
        };
        ToDoItem::new(new_title, new_due_ts)
    }
}

/// One FNV-1a step folded over a byte sequence, starting from hash state `h`.
pub open spec fn fnv1a_from(h: u64, s: Seq<u8>) -> u64
    decreases s.len(),
{
    if s.len() == 0 {
        h
    } else {
        fnv1a_from(vstd::wrapping::u64_specs::wrapping_mul(h ^ (s[0] as u64), FNV_PRIME), s.skip(1))
    }
}

/// The due-date timestamp shifted to a non-negative value, so it can be mixed
/// into the 64-bit hash state; zero outside the representable range.
pub open spec fn ts_offset(due_ts: i64) -> u64 {
    if TS_MIN <= due_ts <= TS_MAX {
        (due_ts - TS_MIN) as u64
    } else {
        0
    }
}

/// The identity of an item: a 64-bit FNV-1a hash of the UTF-8 bytes of its
/// title, with the due-date timestamp mixed in as one final round. A pure
/// function of `(title, due_ts)`: items with equal fields collide by design
/// and are treated as the same item.
pub open spec fn spec_identity(v: ItemModel) -> u64 {
    vstd::wrapping::u64_specs::wrapping_mul(
        fnv1a_from(FNV_OFFSET, vstd::utf8::encode_utf8(v.title)) ^ ts_offset(v.due_ts),
        FNV_PRIME,
    )
}

/// Computes [`spec_identity`] of an item: the stable content hash under which
/// its record is stored and its index entry is keyed.
pub fn identity_of(item: &ToDoItem) -> (r: u64)
    requires
        item.wf(),
    ensures
        r == spec_identity(item@),
{
    let bytes: Vec<u8> = vstd::slice::slice_to_vec(item.title.as_str().as_bytes());
    let ghost all: Seq<u8> = vstd::utf8::encode_utf8(item@.title);
    assert(bytes@ == all);
    proof {
        assert(all.skip(0) =~= all);
    }
    let n = bytes.len();
    let mut h: u64 = FNV_OFFSET;
    let mut i: usize = 0;
    while i < n
        invariant
            i <= n,
            n == all.len(),
            bytes@ == all,
            fnv1a_from(FNV_OFFSET, all) == fnv1a_from(h, all.skip(i as int)),
        decreases n - i,
    {
        proof {
            assert(all.skip(i as int).len() > 0);
            assert(all.skip(i as int)[0] == all[i as int]);
            assert(all.skip(i as int).skip(1) =~= all.skip(i as int + 1));
        }
        h = (h ^ (bytes[i] as u64)).wrapping_mul(FNV_PRIME);
        i = i + 1;
    }
    proof {
        assert(all.skip(n as int) =~= Seq::<u8>::empty());
    }
    let shifted: u64 = (item.due_ts - TS_MIN) as u64;
    (h ^ shifted).wrapping_mul(FNV_PRIME)
}

/// Identity is content-addressed and deterministic: two items that agree on
/// title and due date have the same identity, whatever else distinguishes the
/// values that carry them.
pub proof fn lemma_identity_deterministic(a: ItemModel, b: ItemModel)
    requires
        a.title == b.title,
        a.due_ts == b.due_ts,
    ensures
        spec_identity(a) == spec_identity(b),
{
}

} // verus!
