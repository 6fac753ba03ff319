use vstd::prelude::*;
use vstd::string::StringExecFns;

verus! {

/// The character for one decimal digit.
pub open spec fn digit_char(d: int) -> char {
    if d == 0 {
        '0'
    } else if d == 1 {
        '1'
    } else if d == 2 {
        '2'
    } else if d == 3 {
        '3'
    } else if d == 4 {
        '4'
    } else if d == 5 {
        '5'
    } else if d == 6 {
        '6'
    } else if d == 7 {
        '7'
    } else if d == 8 {
        '8'
    } else {
        '9'
    }
}

/// The decimal rendering of a natural number, most significant digit first,
/// with no leading zeroes (zero itself renders as "0").
pub open spec fn dec_str(n: nat) -> Seq<char>
    decreases n,
{
    if n < 10 {
        seq![digit_char(n as int)]
    } else {
        dec_str(n / 10).push(digit_char((n % 10) as int))
    }
}

/// The key under which an item's record is stored: the fixed prefix followed
/// by the item's identity in decimal.
pub open spec fn record_key_of(id: u64) -> Seq<char> {
    "retodos/items/"@ + dec_str(id as nat)
}

/// The key of the single date-ordered index of all items.
pub open spec fn index_key_of() -> Seq<char> {
    "retodos/items/index"@
}

fn dchar(d: u64) -> (c: char)
    requires
        d < 10,
    ensures
        c == digit_char(d as int),
{
    match d {
        0 => '0',
        1 => '1',
        2 => '2',
        3 => '3',
        4 => '4',
        5 => '5',
        6 => '6',
        7 => '7',
        8 => '8',
        _ => '9',
    }
}

/// Relies on String's FromIterator over chars: collecting yields a string
/// whose characters are exactly the given sequence.
#[verifier::external_body]
fn string_from_chars(chars: &Vec<char>) -> (r: String)
    ensures
        r@ == chars@,
{
    chars.iter().collect()
}

/// Renders a number in decimal, as the store's index members and key suffixes
/// are written.
pub fn u64_to_dec(n: u64) -> (r: String)
    ensures
        r@ == dec_str(n as nat),
{
    let mut digits: Vec<char> = Vec::new();
    let mut m: u64 = n;
    while m >= 10
        invariant
            dec_str(n as nat) == dec_str(m as nat) + digits@,
        decreases m,
    {
        let d = m % 10;
        let c = dchar(d);
        let ghost digits0 = digits@;
        digits.insert(0, c);
        proof {
            assert(digits@ =~= seq![c] + digits0);
            assert(dec_str(m as nat) =~= dec_str((m as nat) / 10) + seq![c]);
            assert(dec_str((m as nat) / 10) + digits@ =~= dec_str(n as nat));
        }
        m = m / 10;
    }
    let c = dchar(m);
    let ghost digits0 = digits@;
    digits.insert(0, c);
    proof {
        assert(digits@ =~= seq![c] + digits0);
        assert(dec_str(m as nat) =~= seq![c]);
        assert(dec_str(n as nat) =~= digits@);
    }
    string_from_chars(&digits)
}

/// Builds the storage key of the record with the given identity.
pub fn record_key(id: u64) -> (r: String)
    ensures
        r@ == record_key_of(id),
{
    let prefix = String::from_str("retodos/items/");
    let digits = u64_to_dec(id);
    prefix.concat(digits.as_str())
}

/// Builds the key of the date-ordered index.
pub fn index_key() -> (r: String)
    ensures
        r@ == index_key_of(),
{
    String::from_str("retodos/items/index")
}

} // verus!
