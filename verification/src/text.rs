//! Text: hexadecimal and decimal numbers, and fields in JSON.

use crate::wire::leading_array;
use vstd::prelude::*;
use vstd::string::*;

verus! {

// ── Hexadecimal ──

/// The lower-case digit of a number below sixteen.
pub open spec fn hex_digit(n: int) -> char {
    if n < 10 {
        (48 + n) as char
    } else {
        (87 + n) as char
    }
}

/// The number that a digit of either case stands for.
pub open spec fn hex_value(c: char) -> Option<int> {
    if '0' <= c <= '9' {
        Some(c as int - 48)
    } else if 'a' <= c <= 'f' {
        Some(c as int - 87)
    } else if 'A' <= c <= 'F' {
        Some(c as int - 55)
    } else {
        None
    }
}

/// Bytes as text: two digits each, the high one first.
pub open spec fn hex_text(s: Seq<u8>) -> Seq<char> {
    Seq::new(2 * s.len(), |i: int| hex_digit(if i % 2 == 0 { s[i / 2] as int / 16 } else { s[i / 2] as int % 16 }))
}

/// An even number of hexadecimal digits.
pub open spec fn is_hex(t: Seq<char>) -> bool {
    t.len() % 2 == 0 && forall|i: int| 0 <= i < t.len() ==> hex_value(#[trigger] t[i]) is Some
}

/// The bytes that a text stands for, if it is hexadecimal.
pub open spec fn unhex(t: Seq<char>) -> Option<Seq<u8>> {
    if is_hex(t) {
        Some(Seq::new(t.len() / 2, |i: int| (16 * hex_value(t[2 * i])->0 + hex_value(t[2 * i + 1])->0) as u8))
    } else {
        None
    }
}

/// `hex::encode`: two lower-case digits for each byte.
#[verifier::external_body]
pub(crate) fn hex_encode(s: &[u8]) -> (r: String)
    ensures
        r@ == hex_text(s@),
{
    hex::encode(s)
}

/// How the hex crate words its refusal of a text.
pub uninterp spec fn hex_refusal(t: Seq<char>) -> Seq<char>;

/// `hex::decode`: the bytes of an even number of digits of either case; it fails
/// exactly on any other text, with an error that reads as named by `hex_refusal`.
#[verifier::external_body]
pub(crate) fn hex_decode(t: &str) -> (r: Result<Vec<u8>, String>)
    ensures
        match r {
            Ok(s) => unhex(t@) == Some(s@),
            Err(e) => unhex(t@) is None && e@ == hex_refusal(t@),
        },
{
    hex::decode(t).map_err(|e| e.to_string())
}

/// Bytes as hexadecimal text.
pub fn to_hex(s: &[u8]) -> (r: String)
    ensures
        r@ == hex_text(s@),
{
    hex_encode(s)
}

/// Exactly `N` bytes from hexadecimal text.
pub fn parse_hex<const N: usize>(t: &str) -> (r: Option<[u8; N]>)
    ensures
        match r {
            Some(a) => unhex(t@) == Some(a@),
            None => unhex(t@) is None || unhex(t@)->0.len() != N,
        },
{
    match hex_decode(t) {
        Ok(s) => {
            if s.len() == N {
                let a = leading_array::<N>(s.as_slice());
                assert(a@ =~= s@);
                Some(a)
            } else {
                None
            }
        },
        Err(_) => None,
    }
}

/// Bytes written as text are read back.
pub proof fn law_hex_read_back(s: Seq<u8>)
    ensures
        unhex(hex_text(s)) == Some(s),
{
    let t = hex_text(s);
    assert forall|i: int| 0 <= i < t.len() implies hex_value(#[trigger] t[i]) == Some(
        if i % 2 == 0 { s[i / 2] as int / 16 } else { s[i / 2] as int % 16 },
    ) by {}
    assert(is_hex(t));
    assert forall|i: int| 0 <= i < s.len() implies (16 * hex_value(t[2 * i])->0 + hex_value(t[2 * i + 1])->0) as u8 == s[i] by {
        assert((2 * i) / 2 == i && (2 * i) % 2 == 0 && (2 * i + 1) / 2 == i && (2 * i + 1) % 2 == 1);
    }
    assert(unhex(t)->0 =~= s);
}

// ── Decimal ──

/// A number in decimal digits, without leading zeros.
pub open spec fn decimal(n: nat) -> Seq<char>
    decreases n,
{
    if n < 10 {
        seq![(48 + n) as char]
    } else {
        decimal(n / 10).push((48 + n % 10) as char)
    }
}

fn push_digit(out: &mut String, d: u64)
    requires
        d < 10,
    ensures
        final(out)@ == old(out)@.push((48 + d) as char),
{
    let ghost before = out@;
    proof {
        reveal_strlit("0");
        reveal_strlit("1");
        reveal_strlit("2");
        reveal_strlit("3");
        reveal_strlit("4");
        reveal_strlit("5");
        reveal_strlit("6");
        reveal_strlit("7");
        reveal_strlit("8");
        reveal_strlit("9");
    }
    let digit = match d {
        0 => "0",
        1 => "1",
        2 => "2",
        3 => "3",
        4 => "4",
        5 => "5",
        6 => "6",
        7 => "7",
        8 => "8",
        _ => "9",
    };
    out.append(digit);
    assert(out@ =~= before.push((48 + d) as char));
}

/// Append a number in decimal digits.
pub fn push_decimal(out: &mut String, n: u64)
    ensures
        final(out)@ == old(out)@ + decimal(n as nat),
    decreases n,
{
    let ghost before = out@;
    if n >= 10 {
        push_decimal(out, n / 10);
    }
    push_digit(out, n % 10);
    assert(out@ =~= before + decimal(n as nat));
}

// ── JSON ──

/// The string under a name in a JSON object; nothing where the text is no JSON, no
/// object, or holds no string under that name.
pub uninterp spec fn json_field(text: Seq<char>, field: Seq<char>) -> Option<Seq<char>>;

/// The JSON object with two strings under two names, indented.
pub uninterp spec fn json_pair(first: Seq<char>, a: Seq<char>, second: Seq<char>, b: Seq<char>) -> Seq<char>;

/// `serde_json::from_str` to a `Value`, of which one string is picked: as named by
/// `json_field`.
#[verifier::external_body]
pub(crate) fn json_text(text: &str, field: &str) -> (r: Option<String>)
    ensures
        match r {
            Some(s) => json_field(text@, field@) == Some(s@),
            None => json_field(text@, field@) is None,
        },
{
    serde_json::from_str::<serde_json::Value>(text).ok().and_then(|value| value[field].as_str().map(|s| s.to_string()))
}

/// A name that does not begin with `$`: some of those that do have a meaning of their
/// own to the serde_json crate.
pub open spec fn is_plain_name(name: Seq<char>) -> bool {
    name.len() > 0 && name[0] != '$'
}

/// `serde_json::to_string_pretty` of an object with two strings: the text named by
/// `json_pair`. Read again, it gives each string back under its name.
#[verifier::external_body]
pub(crate) fn json_object(first: &str, a: &str, second: &str, b: &str) -> (r: String)
    requires
        first@ != second@,
        is_plain_name(first@),
        is_plain_name(second@),
    ensures
        r@ == json_pair(first@, a@, second@, b@),
        json_field(r@, first@) == Some(a@),
        json_field(r@, second@) == Some(b@),
{
    let mut object = serde_json::Map::new();
    object.insert(first.to_string(), serde_json::Value::String(a.to_string()));
    object.insert(second.to_string(), serde_json::Value::String(b.to_string()));
    serde_json::to_string_pretty(&serde_json::Value::Object(object)).expect("an object of strings always serializes")
}

} // verus!
