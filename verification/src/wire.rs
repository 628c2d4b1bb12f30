//! The record format: how values are laid out as bytes.
//!
//! Integers are fixed-width and little-endian, byte arrays stand as they are,
//! strings and lists carry an eight-byte length, options a one-byte tag, and a
//! record is its fields one after the other. Reading is the inverse of writing:
//! a value is found exactly where its own bytes lead the input.

use crate::bytes::{append, le, lemma_array_of_view, lemma_le_len, lemma_le_round_trip, lemma_pow256_values, lemma_prefix_split, lemma_prefixes_agree, pow256};
use crate::text::{decimal, push_decimal};
use vstd::prelude::*;
use vstd::slice::slice_subrange;
use vstd::utf8::encode_utf8;

verus! {

// ── Leaves: one call of the bincode crate each ──

/// `bincode::serialize` of a `u16`: its two bytes, least significant first.
#[verifier::external_body]
fn bincode_u16(v: u16) -> (r: Vec<u8>)
    ensures
        r@ == le(v as int, 2),
{
    bincode::serialize(&v).expect("an integer always serializes")
}

/// `bincode::serialize` of a `u32`: its four bytes, least significant first.
#[verifier::external_body]
fn bincode_u32(v: u32) -> (r: Vec<u8>)
    ensures
        r@ == le(v as int, 4),
{
    bincode::serialize(&v).expect("an integer always serializes")
}

/// `bincode::serialize` of a `u64`: its eight bytes, least significant first.
#[verifier::external_body]
fn bincode_u64(v: u64) -> (r: Vec<u8>)
    ensures
        r@ == le(v as int, 8),
{
    bincode::serialize(&v).expect("an integer always serializes")
}

/// `bincode::serialize` of an `i64`: the eight bytes of its two's complement,
/// least significant first.
#[verifier::external_body]
fn bincode_i64(v: i64) -> (r: Vec<u8>)
    ensures
        r@ == le(i64_bits(v), 8),
{
    bincode::serialize(&v).expect("an integer always serializes")
}

/// `bincode::serialize` of a string: the length of its UTF-8 form as a `u64`,
/// then that form.
#[verifier::external_body]
fn bincode_str(v: &str) -> (r: Vec<u8>)
    ensures
        r@ == str_bytes(v@),
{
    bincode::serialize(v).expect("a string always serializes")
}

/// How bincode words that the input ends before a value of fixed size does.
pub uninterp spec fn short_refusal(s: Seq<u8>) -> Seq<char>;

/// How bincode words that no string leads the input.
pub uninterp spec fn string_refusal(s: Seq<u8>) -> Seq<char>;

/// `bincode::deserialize` to a `u8`: the byte that leads the input;
/// it fails exactly when there are fewer than one, in the words named by
/// `short_refusal`. What follows is ignored.
#[verifier::external_body]
fn unbincode_u8(buf: &[u8]) -> (r: Result<u8, String>)
    ensures
        match r {
            Ok(v) => buf@.len() >= 1 && v == buf@[0],
            Err(e) => buf@.len() < 1 && e@ == short_refusal(buf@),
        },
{
    bincode::deserialize::<u8>(buf).map_err(|e| e.to_string())
}

/// `bincode::deserialize` to a `u16`: the number whose two bytes lead the input;
/// it fails exactly when there are fewer than two, in the words named by
/// `short_refusal`. What follows is ignored.
#[verifier::external_body]
fn unbincode_u16(buf: &[u8]) -> (r: Result<u16, String>)
    ensures
        match r {
            Ok(v) => le(v as int, 2).is_prefix_of(buf@),
            Err(e) => buf@.len() < 2 && e@ == short_refusal(buf@),
        },
{
    bincode::deserialize::<u16>(buf).map_err(|e| e.to_string())
}

/// `bincode::deserialize` to a `u32`: the number whose four bytes lead the input;
/// it fails exactly when there are fewer than four, in the words named by
/// `short_refusal`. What follows is ignored.
#[verifier::external_body]
fn unbincode_u32(buf: &[u8]) -> (r: Result<u32, String>)
    ensures
        match r {
            Ok(v) => le(v as int, 4).is_prefix_of(buf@),
            Err(e) => buf@.len() < 4 && e@ == short_refusal(buf@),
        },
{
    bincode::deserialize::<u32>(buf).map_err(|e| e.to_string())
}

/// `bincode::deserialize` to a `u64`: the number whose eight bytes lead the input;
/// it fails exactly when there are fewer than eight, in the words named by
/// `short_refusal`. What follows is ignored.
#[verifier::external_body]
fn unbincode_u64(buf: &[u8]) -> (r: Result<u64, String>)
    ensures
        match r {
            Ok(v) => le(v as int, 8).is_prefix_of(buf@),
            Err(e) => buf@.len() < 8 && e@ == short_refusal(buf@),
        },
{
    bincode::deserialize::<u64>(buf).map_err(|e| e.to_string())
}

/// `bincode::deserialize` to an `i64`: the number whose two's complement leads the input;
/// it fails exactly when there are fewer than eight bytes, in the words named by
/// `short_refusal`. What follows is ignored.
#[verifier::external_body]
fn unbincode_i64(buf: &[u8]) -> (r: Result<i64, String>)
    ensures
        match r {
            Ok(v) => le(i64_bits(v), 8).is_prefix_of(buf@),
            Err(e) => buf@.len() < 8 && e@ == short_refusal(buf@),
        },
{
    bincode::deserialize::<i64>(buf).map_err(|e| e.to_string())
}

/// `bincode::deserialize` to 32 bytes: those that lead the input;
/// it fails exactly when there are fewer than 32, in the words named by
/// `short_refusal`. What follows is ignored.
#[verifier::external_body]
fn unbincode_array32(buf: &[u8]) -> (r: Result<[u8; 32], String>)
    ensures
        match r {
            Ok(v) => buf@.len() >= 32 && v@ == buf@.take(32),
            Err(e) => buf@.len() < 32 && e@ == short_refusal(buf@),
        },
{
    bincode::deserialize::<[u8; 32]>(buf).map_err(|e| e.to_string())
}

/// `bincode::deserialize` to four bytes: those that lead the input;
/// it fails exactly when there are fewer than four, in the words named by
/// `short_refusal`. What follows is ignored.
#[verifier::external_body]
fn unbincode_array4(buf: &[u8]) -> (r: Result<[u8; 4], String>)
    ensures
        match r {
            Ok(v) => buf@.len() >= 4 && v@ == buf@.take(4),
            Err(e) => buf@.len() < 4 && e@ == short_refusal(buf@),
        },
{
    bincode::deserialize::<[u8; 4]>(buf).map_err(|e| e.to_string())
}

/// `bincode::deserialize` to a `bool`: 0 or 1 leads the input. It fails exactly when
/// the input is empty, in the words named by `short_refusal`, or led by another byte,
/// which its words name.
#[verifier::external_body]
fn unbincode_bool(buf: &[u8]) -> (r: Result<bool, String>)
    ensures
        match r {
            Ok(v) => buf@.len() >= 1 && buf@[0] == if v { 1u8 } else { 0u8 },
            Err(e) => if buf@.len() == 0 {
                e@ == short_refusal(buf@)
            } else {
                buf@[0] > 1 && e@ == flag_refusal(buf@[0])
            },
        },
{
    bincode::deserialize::<bool>(buf).map_err(|e| e.to_string())
}

/// `bincode::deserialize` to an option of nothing: is there something behind? The byte
/// 0 or 1 that leads the input says so. It fails exactly when the input is empty, in
/// the words named by `short_refusal`, or led by another byte, which its words name.
#[verifier::external_body]
fn unbincode_tag(buf: &[u8]) -> (r: Result<bool, String>)
    ensures
        match r {
            Ok(v) => buf@.len() >= 1 && buf@[0] == if v { 1u8 } else { 0u8 },
            Err(e) => if buf@.len() == 0 {
                e@ == short_refusal(buf@)
            } else {
                buf@[0] > 1 && e@ == tag_refusal(buf@[0])
            },
        },
{
    bincode::deserialize::<Option<()>>(buf).map(|v| v.is_some()).map_err(|e| e.to_string())
}

/// `bincode::deserialize` to a `String`: the text whose serialized form leads the
/// input. It fails exactly when there is none: the length is cut short, or claims
/// more bytes than there are, or what it covers is not UTF-8. Its words are named by
/// `string_refusal`.
#[verifier::external_body]
fn unbincode_string(buf: &[u8]) -> (r: Result<String, String>)
    ensures
        match r {
            Ok(v) => str_bytes(v@).is_prefix_of(buf@),
            Err(e) => (forall|t: Seq<char>| !(#[trigger] str_bytes(t)).is_prefix_of(buf@)) && e@ == string_refusal(buf@),
        },
{
    bincode::deserialize::<String>(buf).map_err(|e| e.to_string())
}

/// `serde::de::Error::invalid_value` of a number, as bincode words it.
#[verifier::external_body]
fn serde_invalid_value(v: u64, expected: &str) -> (r: String)
    ensures
        r@ == "invalid value: integer `"@ + decimal(v as nat) + "`, expected "@ + expected@,
{
    <bincode::Error as serde::de::Error>::invalid_value(serde::de::Unexpected::Unsigned(v), &expected).to_string()
}

/// What is said of a flag that is neither 0 nor 1.
pub open spec fn flag_refusal(v: u8) -> Seq<char> {
    "invalid u8 while decoding bool, expected 0 or 1, found "@ + decimal(v as nat)
}

/// What is said of the tag of an option that is neither 0 nor 1.
pub open spec fn tag_refusal(v: u8) -> Seq<char> {
    "tag for enum is not valid, found "@ + decimal(v as nat)
}

/// What is said of a number that stands for none of a value's forms.
pub open spec fn form_refusal(v: u32, forms: u32) -> Seq<char> {
    "invalid value: integer `"@ + decimal(v as nat) + "`, expected "@ + ("variant index 0 <= i < "@ + decimal(forms as nat))
}

/// What is said of a number that stands for none of a value's forms.
pub fn unknown_form(v: u32, forms: u32) -> (r: String)
    ensures
        r@ == form_refusal(v, forms),
{
    let mut expected = "variant index 0 <= i < ".to_string();
    push_decimal(&mut expected, forms as u64);
    serde_invalid_value(v as u64, expected.as_str())
}

/// The two's complement of `v`, as a number without sign.
pub open spec fn i64_bits(v: i64) -> int {
    if v >= 0 {
        v as int
    } else {
        v + 0x1_0000_0000_0000_0000
    }
}

/// A text on the wire: the length of its UTF-8 form, then that form.
pub open spec fn str_bytes(t: Seq<char>) -> Seq<u8> {
    le(encode_utf8(t).len() as int, 8) + encode_utf8(t)
}

// ── What has a place in the record format ──

/// A type whose values have a form in bytes.
pub trait Wire: Sized {
    /// What a value stands for.
    type Model;

    /// What this value stands for.
    spec fn model(&self) -> Self::Model;

    /// The bytes of a value.
    spec fn bytes(m: Self::Model) -> Seq<u8>;

    /// What is said of an input that no value leads.
    spec fn refusal(s: Seq<u8>) -> Seq<char>;

    /// No value is written as nothing.
    proof fn lemma_nonempty(m: Self::Model)
        ensures
            Self::bytes(m).len() >= 1,
    ;

    /// At most one value leads an input.
    proof fn lemma_unique(a: Self::Model, b: Self::Model, s: Seq<u8>)
        requires
            Self::bytes(a).is_prefix_of(s),
            Self::bytes(b).is_prefix_of(s),
            s.len() <= u64::MAX,
        ensures
            a == b,
    ;

    /// Write the value behind what `out` holds.
    fn encode(&self, out: &mut Vec<u8>)
        ensures
            final(out)@ == old(out)@ + Self::bytes(self.model()),
    ;

    /// The value that leads `buf`, with the number of bytes that it takes;
    /// an error exactly when no value leads it.
    fn decode(buf: &[u8]) -> (r: Result<(Self, usize), String>)
        ensures
            match r {
                Ok((v, n)) => n <= buf@.len() && buf@.take(n as int) == Self::bytes(v.model()),
                Err(e) => (forall|m: Self::Model| !(#[trigger] Self::bytes(m)).is_prefix_of(buf@)) && e@ == Self::refusal(buf@),
            },
    ;
}

/// The bytes of a value on their own.
pub fn to_bytes<T: Wire>(v: &T) -> (r: Vec<u8>)
    ensures
        r@ == T::bytes(v.model()),
{
    let mut out: Vec<u8> = Vec::new();
    v.encode(&mut out);
    assert(out@ =~= T::bytes(v.model()));
    out
}

/// What leads `s`, if anything does.
pub open spec fn parsed<T: Wire>(s: Seq<u8>) -> Option<T::Model> {
    if exists|m: T::Model| (#[trigger] T::bytes(m)).is_prefix_of(s) {
        Some(choose|m: T::Model| (#[trigger] T::bytes(m)).is_prefix_of(s))
    } else {
        None
    }
}

/// What leads an input is the only thing that does.
pub proof fn lemma_parsed<T: Wire>(m: T::Model, s: Seq<u8>)
    requires
        T::bytes(m).is_prefix_of(s),
        s.len() <= u64::MAX,
    ensures
        parsed::<T>(s) == Some(m),
{
    let c = choose|c: T::Model| (#[trigger] T::bytes(c)).is_prefix_of(s);
    T::lemma_unique(c, m, s);
}

/// Read the value that leads `buf`, if one does.
pub fn from_bytes<T: Wire>(buf: &[u8]) -> (r: Result<T, String>)
    ensures
        match r {
            Ok(v) => parsed::<T>(buf@) == Some(v.model()),
            Err(e) => parsed::<T>(buf@) is None && e@ == T::refusal(buf@),
        },
{
    match T::decode(buf) {
        Ok((v, n)) => {
            proof {
                assert(buf@.take(n as int) =~= buf@.subrange(0, n as int));
                assert(T::bytes(v.model()).is_prefix_of(buf@));
                assert(buf@.len() == buf.len());
                lemma_parsed::<T>(v.model(), buf@);
            }
            Ok(v)
        },
        Err(e) => Err(e),
    }
}

/// What is written is read back.
pub proof fn law_read_back<T: Wire>(m: T::Model, rest: Seq<u8>)
    requires
        T::bytes(m).len() + rest.len() <= u64::MAX,
    ensures
        parsed::<T>(T::bytes(m) + rest) == Some(m),
{
    let s = T::bytes(m) + rest;
    assert(T::bytes(m) =~= s.subrange(0, T::bytes(m).len() as int));
    lemma_parsed::<T>(m, s);
}

// ── Integers and flags ──

impl Wire for u8 {
    type Model = u8;

    open spec fn model(&self) -> u8 {
        *self
    }

    open spec fn bytes(m: u8) -> Seq<u8> {
        seq![m]
    }

    open spec fn refusal(s: Seq<u8>) -> Seq<char> {
        short_refusal(s)
    }

    proof fn lemma_nonempty(m: u8) {
    }

    proof fn lemma_unique(a: u8, b: u8, s: Seq<u8>) {
        lemma_prefixes_agree(seq![a], seq![b], s);
        assert(seq![a][0] == seq![b][0]);
    }

    fn encode(&self, out: &mut Vec<u8>) {
        let ghost before = out@;
        out.push(*self);
        assert(out@ =~= before + seq![*self]);
    }

    fn decode(buf: &[u8]) -> (r: Result<(u8, usize), String>) {
        match unbincode_u8(buf) {
            Ok(v) => {
                assert(buf@.take(1) =~= seq![v]);
                Ok((v, 1))
            },
            Err(e) => Err(e),
        }
    }
}

impl Wire for bool {
    type Model = bool;

    open spec fn model(&self) -> bool {
        *self
    }

    open spec fn bytes(m: bool) -> Seq<u8> {
        seq![if m { 1u8 } else { 0u8 }]
    }

    open spec fn refusal(s: Seq<u8>) -> Seq<char> {
        if s.len() == 0 {
            short_refusal(s)
        } else {
            flag_refusal(s[0])
        }
    }

    proof fn lemma_nonempty(m: bool) {
    }

    proof fn lemma_unique(a: bool, b: bool, s: Seq<u8>) {
        lemma_prefixes_agree(Self::bytes(a), Self::bytes(b), s);
        assert(Self::bytes(a)[0] == Self::bytes(b)[0]);
    }

    fn encode(&self, out: &mut Vec<u8>) {
        let ghost before = out@;
        out.push(if *self { 1u8 } else { 0u8 });
        assert(out@ =~= before + Self::bytes(*self));
    }

    fn decode(buf: &[u8]) -> (r: Result<(bool, usize), String>) {
        match unbincode_bool(buf) {
            Ok(v) => {
                assert(buf@.take(1) =~= Self::bytes(v));
                Ok((v, 1))
            },
            Err(e) => {
                proof {
                    assert forall|m: bool| !(#[trigger] Self::bytes(m)).is_prefix_of(buf@) by {
                        if Self::bytes(m).is_prefix_of(buf@) {
                            assert(Self::bytes(m)[0] == buf@[0]);
                        }
                    }
                }
                Err(e)
            },
        }
    }
}

/// What the four integer formats have in common: bytes of one width, read as the
/// number that they spell.
pub proof fn lemma_fixed_width(a: int, b: int, width: nat, s: Seq<u8>)
    requires
        0 <= a < pow256(width),
        0 <= b < pow256(width),
        le(a, width).is_prefix_of(s),
        le(b, width).is_prefix_of(s),
    ensures
        a == b,
{
    lemma_le_round_trip(a, width);
    lemma_le_round_trip(b, width);
    lemma_prefixes_agree(le(a, width), le(b, width), s);
}

proof fn lemma_leading(p: Seq<u8>, s: Seq<u8>)
    requires
        p.is_prefix_of(s),
    ensures
        s.take(p.len() as int) == p,
{
    assert(s.take(p.len() as int) =~= p);
}

impl Wire for u16 {
    type Model = u16;

    open spec fn model(&self) -> u16 {
        *self
    }

    open spec fn bytes(m: u16) -> Seq<u8> {
        le(m as int, 2)
    }

    open spec fn refusal(s: Seq<u8>) -> Seq<char> {
        short_refusal(s)
    }

    proof fn lemma_nonempty(m: u16) {
        lemma_le_len(m as int, 2);
    }

    proof fn lemma_unique(a: u16, b: u16, s: Seq<u8>) {
        lemma_pow256_values();
        lemma_fixed_width(a as int, b as int, 2, s);
    }

    fn encode(&self, out: &mut Vec<u8>) {
        let b = bincode_u16(*self);
        append(out, b.as_slice());
    }

    fn decode(buf: &[u8]) -> (r: Result<(u16, usize), String>) {
        proof {
            assert forall|m: u16| #[trigger] le(m as int, 2).len() == 2 by {
                lemma_le_len(m as int, 2);
            }
        }
        match unbincode_u16(buf) {
            Ok(v) => {
                proof {
                    lemma_leading(le(v as int, 2), buf@);
                }
                Ok((v, 2))
            },
            Err(e) => Err(e),
        }
    }
}

impl Wire for u32 {
    type Model = u32;

    open spec fn model(&self) -> u32 {
        *self
    }

    open spec fn bytes(m: u32) -> Seq<u8> {
        le(m as int, 4)
    }

    open spec fn refusal(s: Seq<u8>) -> Seq<char> {
        short_refusal(s)
    }

    proof fn lemma_nonempty(m: u32) {
        lemma_le_len(m as int, 4);
    }

    proof fn lemma_unique(a: u32, b: u32, s: Seq<u8>) {
        lemma_pow256_values();
        lemma_fixed_width(a as int, b as int, 4, s);
    }

    fn encode(&self, out: &mut Vec<u8>) {
        let b = bincode_u32(*self);
        append(out, b.as_slice());
    }

    fn decode(buf: &[u8]) -> (r: Result<(u32, usize), String>) {
        proof {
            assert forall|m: u32| #[trigger] le(m as int, 4).len() == 4 by {
                lemma_le_len(m as int, 4);
            }
        }
        match unbincode_u32(buf) {
            Ok(v) => {
                proof {
                    lemma_leading(le(v as int, 4), buf@);
                }
                Ok((v, 4))
            },
            Err(e) => Err(e),
        }
    }
}

impl Wire for u64 {
    type Model = u64;

    open spec fn model(&self) -> u64 {
        *self
    }

    open spec fn bytes(m: u64) -> Seq<u8> {
        le(m as int, 8)
    }

    open spec fn refusal(s: Seq<u8>) -> Seq<char> {
        short_refusal(s)
    }

    proof fn lemma_nonempty(m: u64) {
        lemma_le_len(m as int, 8);
    }

    proof fn lemma_unique(a: u64, b: u64, s: Seq<u8>) {
        lemma_pow256_values();
        lemma_fixed_width(a as int, b as int, 8, s);
    }

    fn encode(&self, out: &mut Vec<u8>) {
        let b = bincode_u64(*self);
        append(out, b.as_slice());
    }

    fn decode(buf: &[u8]) -> (r: Result<(u64, usize), String>) {
        proof {
            assert forall|m: u64| #[trigger] le(m as int, 8).len() == 8 by {
                lemma_le_len(m as int, 8);
            }
        }
        match unbincode_u64(buf) {
            Ok(v) => {
                proof {
                    lemma_leading(le(v as int, 8), buf@);
                }
                Ok((v, 8))
            },
            Err(e) => Err(e),
        }
    }
}

impl Wire for i64 {
    type Model = i64;

    open spec fn model(&self) -> i64 {
        *self
    }

    open spec fn bytes(m: i64) -> Seq<u8> {
        le(i64_bits(m), 8)
    }

    open spec fn refusal(s: Seq<u8>) -> Seq<char> {
        short_refusal(s)
    }

    proof fn lemma_nonempty(m: i64) {
        lemma_le_len(i64_bits(m), 8);
    }

    proof fn lemma_unique(a: i64, b: i64, s: Seq<u8>) {
        lemma_pow256_values();
        lemma_fixed_width(i64_bits(a), i64_bits(b), 8, s);
    }

    fn encode(&self, out: &mut Vec<u8>) {
        let b = bincode_i64(*self);
        append(out, b.as_slice());
    }

    fn decode(buf: &[u8]) -> (r: Result<(i64, usize), String>) {
        proof {
            assert forall|m: i64| #[trigger] Self::bytes(m).len() == 8 by {
                lemma_le_len(i64_bits(m), 8);
            }
        }
        match unbincode_i64(buf) {
            Ok(v) => {
                proof {
                    assert(Self::bytes(v).len() == 8);
                    lemma_leading(le(i64_bits(v), 8), buf@);
                }
                Ok((v, 8))
            },
            Err(e) => Err(e),
        }
    }
}

// ── Values with several forms ──

/// The number that leads a value with several forms settles which form it is, and
/// the form's fields follow it.
pub proof fn lemma_tagged(a: u32, x: Seq<u8>, b: u32, s: Seq<u8>)
    requires
        (le(a as int, 4) + x).is_prefix_of(s),
        le(b as int, 4).is_prefix_of(s),
    ensures
        a == b,
        x.is_prefix_of(s.skip(4)),
{
    lemma_le_len(a as int, 4);
    lemma_prefix_split(le(a as int, 4), x, s);
    lemma_pow256_values();
    lemma_fixed_width(a as int, b as int, 4, s);
}

/// What reading that number tells.
pub proof fn lemma_tag_read(v: u32, n: usize, s: Seq<u8>)
    requires
        n <= s.len(),
        s.take(n as int) == u32::bytes(v),
    ensures
        n == 4,
        le(v as int, 4).is_prefix_of(s),
{
    lemma_le_len(v as int, 4);
    assert(s.take(n as int).len() == n);
    assert(s.take(4) =~= s.subrange(0, 4));
}

// ── Text and byte arrays ──

impl Wire for String {
    type Model = Seq<char>;

    open spec fn model(&self) -> Seq<char> {
        self@
    }

    open spec fn bytes(m: Seq<char>) -> Seq<u8> {
        str_bytes(m)
    }

    open spec fn refusal(s: Seq<u8>) -> Seq<char> {
        string_refusal(s)
    }

    proof fn lemma_nonempty(m: Seq<char>) {
        lemma_le_len(encode_utf8(m).len() as int, 8);
    }

    proof fn lemma_unique(a: Seq<char>, b: Seq<char>, s: Seq<u8>) {
        let (ua, ub) = (encode_utf8(a), encode_utf8(b));
        lemma_le_len(ua.len() as int, 8);
        lemma_le_len(ub.len() as int, 8);
        lemma_prefix_split(le(ua.len() as int, 8), ua, s);
        lemma_prefix_split(le(ub.len() as int, 8), ub, s);
        lemma_pow256_values();
        lemma_fixed_width(ua.len() as int, ub.len() as int, 8, s);
        lemma_prefixes_agree(ua, ub, s.skip(8));
        vstd::utf8::encode_utf8_decode_utf8(a);
        vstd::utf8::encode_utf8_decode_utf8(b);
    }

    fn encode(&self, out: &mut Vec<u8>) {
        let b = bincode_str(self.as_str());
        append(out, b.as_slice());
    }

    fn decode(buf: &[u8]) -> (r: Result<(String, usize), String>) {
        match unbincode_string(buf) {
            Ok(v) => {
                proof {
                    lemma_le_len(encode_utf8(v@).len() as int, 8);
                    lemma_leading(str_bytes(v@), buf@);
                    assert(buf@.len() == buf.len());
                }
                let n: usize = 8 + v.as_str().len();
                Ok((v, n))
            },
            Err(e) => Err(e),
        }
    }
}

/// Copy the first `N` bytes of `buf`.
pub fn leading_array<const N: usize>(buf: &[u8]) -> (r: [u8; N])
    requires
        N <= buf@.len(),
    ensures
        r@ == buf@.take(N as int),
{
    let mut r: [u8; N] = [0u8; N];
    let mut i: usize = 0;
    while i < N
        invariant
            i <= N,
            N <= buf@.len(),
            forall|j: int| 0 <= j < i ==> r@[j] == buf@[j],
        decreases N - i,
    {
        r[i] = buf[i];
        i += 1;
    }
    assert(r@ =~= buf@.take(N as int));
    r
}

impl Wire for [u8; 32] {
    type Model = [u8; 32];

    open spec fn model(&self) -> [u8; 32] {
        *self
    }

    open spec fn bytes(m: [u8; 32]) -> Seq<u8> {
        m@
    }

    open spec fn refusal(s: Seq<u8>) -> Seq<char> {
        short_refusal(s)
    }

    proof fn lemma_nonempty(m: [u8; 32]) {
    }

    proof fn lemma_unique(a: [u8; 32], b: [u8; 32], s: Seq<u8>) {
        lemma_prefixes_agree(a@, b@, s);
        lemma_array_of_view(a, b);
    }

    fn encode(&self, out: &mut Vec<u8>) {
        append(out, self.as_slice());
    }

    fn decode(buf: &[u8]) -> (r: Result<([u8; 32], usize), String>) {
        match unbincode_array32(buf) {
            Ok(v) => Ok((v, 32)),
            Err(e) => Err(e),
        }
    }
}

impl Wire for [u8; 4] {
    type Model = [u8; 4];

    open spec fn model(&self) -> [u8; 4] {
        *self
    }

    open spec fn bytes(m: [u8; 4]) -> Seq<u8> {
        m@
    }

    open spec fn refusal(s: Seq<u8>) -> Seq<char> {
        short_refusal(s)
    }

    proof fn lemma_nonempty(m: [u8; 4]) {
    }

    proof fn lemma_unique(a: [u8; 4], b: [u8; 4], s: Seq<u8>) {
        lemma_prefixes_agree(a@, b@, s);
        lemma_array_of_view(a, b);
    }

    fn encode(&self, out: &mut Vec<u8>) {
        append(out, self.as_slice());
    }

    fn decode(buf: &[u8]) -> (r: Result<([u8; 4], usize), String>) {
        match unbincode_array4(buf) {
            Ok(v) => Ok((v, 4)),
            Err(e) => Err(e),
        }
    }
}

// ── Composition: one after the other, perhaps, many ──

impl<A: Wire, B: Wire> Wire for (A, B) {
    type Model = (A::Model, B::Model);

    open spec fn model(&self) -> (A::Model, B::Model) {
        (self.0.model(), self.1.model())
    }

    open spec fn bytes(m: (A::Model, B::Model)) -> Seq<u8> {
        A::bytes(m.0) + B::bytes(m.1)
    }

    open spec fn refusal(s: Seq<u8>) -> Seq<char> {
        match parsed::<A>(s) {
            None => A::refusal(s),
            Some(a) => B::refusal(s.skip(A::bytes(a).len() as int)),
        }
    }

    proof fn lemma_nonempty(m: (A::Model, B::Model)) {
        A::lemma_nonempty(m.0);
    }

    proof fn lemma_unique(a: (A::Model, B::Model), b: (A::Model, B::Model), s: Seq<u8>) {
        lemma_prefix_split(A::bytes(a.0), B::bytes(a.1), s);
        lemma_prefix_split(A::bytes(b.0), B::bytes(b.1), s);
        A::lemma_unique(a.0, b.0, s);
        B::lemma_unique(a.1, b.1, s.skip(A::bytes(a.0).len() as int));
    }

    fn encode(&self, out: &mut Vec<u8>) {
        let ghost before = out@;
        self.0.encode(out);
        self.1.encode(out);
        assert(out@ =~= before + Self::bytes(self.model()));
    }

    fn decode(buf: &[u8]) -> (r: Result<((A, B), usize), String>) {
        match A::decode(buf) {
            Err(e) => {
                proof {
                    assert forall|m: (A::Model, B::Model)| !(#[trigger] Self::bytes(m)).is_prefix_of(buf@) by {
                        lemma_prefix_split(A::bytes(m.0), B::bytes(m.1), buf@);
                    }
                }
                Err(e)
            },
            Ok((a, n)) => {
                let rest = slice_subrange(buf, n, buf.len());
                assert(rest@ =~= buf@.skip(n as int));
                assert(A::bytes(a.model()).is_prefix_of(buf@)) by {
                    assert(buf@.take(n as int) =~= buf@.subrange(0, n as int));
                }
                match B::decode(rest) {
                    Err(e) => {
                        proof {
                            assert(buf@.len() == buf.len());
                            lemma_parsed::<A>(a.model(), buf@);
                            assert(buf@.take(n as int).len() == n);
                            assert forall|m: (A::Model, B::Model)| !(#[trigger] Self::bytes(m)).is_prefix_of(buf@) by {
                                lemma_prefix_split(A::bytes(m.0), B::bytes(m.1), buf@);
                                if Self::bytes(m).is_prefix_of(buf@) {
                                    assert(buf@.len() == buf.len());
                                    A::lemma_unique(m.0, a.model(), buf@);
                                }
                            }
                        }
                        Err(e)
                    },
                    Ok((b, k)) => {
                        assert(buf@.take(n + k) =~= buf@.take(n as int) + rest@.take(k as int));
                        assert(buf@.len() == buf.len());
                        Ok(((a, b), n + k))
                    },
                }
            },
        }
    }
}

impl<T: Wire> Wire for Option<T> {
    type Model = Option<T::Model>;

    open spec fn model(&self) -> Option<T::Model> {
        match self {
            Some(v) => Some(v.model()),
            None => None,
        }
    }

    open spec fn bytes(m: Option<T::Model>) -> Seq<u8> {
        match m {
            Some(v) => seq![1u8] + T::bytes(v),
            None => seq![0u8],
        }
    }

    open spec fn refusal(s: Seq<u8>) -> Seq<char> {
        if s.len() == 0 {
            short_refusal(s)
        } else if s[0] > 1 {
            tag_refusal(s[0])
        } else {
            T::refusal(s.skip(1))
        }
    }

    proof fn lemma_nonempty(m: Option<T::Model>) {
    }

    proof fn lemma_unique(a: Option<T::Model>, b: Option<T::Model>, s: Seq<u8>) {
        assert(Self::bytes(a)[0] == s[0] && Self::bytes(b)[0] == s[0]);
        if let (Some(x), Some(y)) = (a, b) {
            lemma_prefix_split(seq![1u8], T::bytes(x), s);
            lemma_prefix_split(seq![1u8], T::bytes(y), s);
            T::lemma_unique(x, y, s.skip(1));
        }
    }

    fn encode(&self, out: &mut Vec<u8>) {
        let ghost before = out@;
        match self {
            Some(v) => {
                out.push(1u8);
                v.encode(out);
            },
            None => {
                out.push(0u8);
            },
        }
        assert(out@ =~= before + Self::bytes(self.model()));
    }

    fn decode(buf: &[u8]) -> (r: Result<(Option<T>, usize), String>) {
        let there: bool = match unbincode_tag(buf) {
            Ok(there) => there,
            Err(e) => {
                proof {
                    assert forall|m: Option<T::Model>| !(#[trigger] Self::bytes(m)).is_prefix_of(buf@) by {
                        if Self::bytes(m).is_prefix_of(buf@) {
                            assert(Self::bytes(m)[0] == buf@[0]);
                        }
                    }
                }
                return Err(e);
            },
        };
        assert(buf@.take(1) =~= seq![buf@[0]]);
        if !there {
            return Ok((None, 1));
        }
        let rest = slice_subrange(buf, 1, buf.len());
        assert(rest@ =~= buf@.skip(1));
        match T::decode(rest) {
            Ok((v, n)) => {
                assert(buf@.take(n + 1) =~= seq![1u8] + rest@.take(n as int));
                assert(buf@.len() == buf.len());
                Ok((Some(v), n + 1))
            },
            Err(e) => {
                proof {
                    assert forall|m: Option<T::Model>| !(#[trigger] Self::bytes(m)).is_prefix_of(buf@) by {
                        if Self::bytes(m).is_prefix_of(buf@) {
                            assert(Self::bytes(m)[0] == buf@[0]);
                            lemma_prefix_split(seq![1u8], T::bytes(m->0), buf@);
                        }
                    }
                }
                Err(e)
            },
        }
    }
}

/// The bytes of several values, one after the other.
pub open spec fn run<T: Wire>(ms: Seq<T::Model>) -> Seq<u8>
    decreases ms.len(),
{
    if ms.len() == 0 {
        Seq::empty()
    } else {
        T::bytes(ms[0]) + run::<T>(ms.drop_first())
    }
}

/// What is said of an input that `n` values do not lead: what is said where the first
/// of them is missing.
pub open spec fn run_refusal<T: Wire>(n: nat, s: Seq<u8>) -> Seq<char>
    decreases n,
{
    if n == 0 {
        Seq::empty()
    } else {
        match parsed::<T>(s) {
            None => T::refusal(s),
            Some(m) => run_refusal::<T>((n - 1) as nat, s.skip(T::bytes(m).len() as int)),
        }
    }
}

proof fn lemma_run_split<T: Wire>(a: Seq<T::Model>, b: Seq<T::Model>)
    ensures
        run::<T>(a + b) == run::<T>(a) + run::<T>(b),
    decreases a.len(),
{
    if a.len() == 0 {
        assert(a + b =~= b);
        assert(run::<T>(a + b) =~= run::<T>(a) + run::<T>(b));
    } else {
        assert((a + b).drop_first() =~= a.drop_first() + b);
        lemma_run_split::<T>(a.drop_first(), b);
        assert(run::<T>(a + b) =~= run::<T>(a) + run::<T>(b));
    }
}

/// Bytes one after the other are those bytes.
pub proof fn lemma_run_bytes(s: Seq<u8>)
    ensures
        run::<u8>(s) == s,
    decreases s.len(),
{
    if s.len() > 0 {
        lemma_run_bytes(s.drop_first());
    }
    assert(run::<u8>(s) =~= s);
}

proof fn lemma_run_one<T: Wire>(m: T::Model)
    ensures
        run::<T>(seq![m]) == T::bytes(m),
{
    assert(seq![m].drop_first() =~= Seq::<T::Model>::empty());
    assert(run::<T>(seq![m].drop_first()) =~= Seq::<u8>::empty());
    assert(run::<T>(seq![m]) =~= T::bytes(m));
}

proof fn lemma_run_len<T: Wire>(ms: Seq<T::Model>)
    ensures
        run::<T>(ms).len() >= ms.len(),
    decreases ms.len(),
{
    if ms.len() > 0 {
        T::lemma_nonempty(ms[0]);
        lemma_run_len::<T>(ms.drop_first());
    }
}

proof fn lemma_run_unique<T: Wire>(a: Seq<T::Model>, b: Seq<T::Model>, s: Seq<u8>)
    requires
        a.len() == b.len(),
        run::<T>(a).is_prefix_of(s),
        run::<T>(b).is_prefix_of(s),
        s.len() <= u64::MAX,
    ensures
        a == b,
    decreases a.len(),
{
    if a.len() > 0 {
        let (x, y) = (T::bytes(a[0]), T::bytes(b[0]));
        lemma_prefix_split(x, run::<T>(a.drop_first()), s);
        lemma_prefix_split(y, run::<T>(b.drop_first()), s);
        T::lemma_unique(a[0], b[0], s);
        lemma_run_unique::<T>(a.drop_first(), b.drop_first(), s.skip(x.len() as int));
        assert(a =~= seq![a[0]] + a.drop_first());
        assert(b =~= seq![b[0]] + b.drop_first());
    } else {
        assert(a =~= b);
    }
}

/// What the values of a list stand for.
pub open spec fn models<T: Wire>(v: Seq<T>) -> Seq<T::Model> {
    Seq::new(v.len(), |i: int| v[i].model())
}

/// Write a list: its length, then its values.
pub fn encode_list<T: Wire>(list: &[T], out: &mut Vec<u8>)
    ensures
        final(out)@ == old(out)@ + Vec::<T>::bytes(models::<T>(list@)),
{
    let ghost before = out@;
    let ghost all = models::<T>(list@);
    let n: usize = list.len();
    (n as u64).encode(out);
    let mut i: usize = 0;
    assert(run::<T>(all.take(0)) =~= Seq::<u8>::empty());
    assert(out@ =~= before + le(n as int, 8) + run::<T>(all.take(0)));
    while i < n
        invariant
            n == list@.len(),
            i <= n,
            all == models::<T>(list@),
            out@ == before + le(n as int, 8) + run::<T>(all.take(i as int)),
        decreases n - i,
    {
        list[i].encode(out);
        proof {
            let m = all[i as int];
            assert(all.take(i + 1) =~= all.take(i as int) + seq![m]);
            lemma_run_split::<T>(all.take(i as int), seq![m]);
            lemma_run_one::<T>(m);
            assert(out@ =~= before + le(n as int, 8) + run::<T>(all.take(i + 1)));
        }
        i += 1;
    }
    assert(all.take(n as int) =~= all);
    assert(out@ =~= before + Vec::<T>::bytes(all));
}

impl<T: Wire> Wire for Vec<T> {
    type Model = Seq<T::Model>;

    open spec fn model(&self) -> Seq<T::Model> {
        models::<T>(self@)
    }

    open spec fn bytes(m: Seq<T::Model>) -> Seq<u8> {
        le(m.len() as int, 8) + run::<T>(m)
    }

    open spec fn refusal(s: Seq<u8>) -> Seq<char> {
        match parsed::<u64>(s) {
            None => short_refusal(s),
            Some(n) => run_refusal::<T>(n as nat, s.skip(8)),
        }
    }

    proof fn lemma_nonempty(m: Seq<T::Model>) {
        lemma_le_len(m.len() as int, 8);
    }

    proof fn lemma_unique(a: Seq<T::Model>, b: Seq<T::Model>, s: Seq<u8>) {
        lemma_le_len(a.len() as int, 8);
        lemma_le_len(b.len() as int, 8);
        lemma_prefix_split(le(a.len() as int, 8), run::<T>(a), s);
        lemma_prefix_split(le(b.len() as int, 8), run::<T>(b), s);
        lemma_run_len::<T>(a);
        lemma_run_len::<T>(b);
        lemma_pow256_values();
        lemma_fixed_width(a.len() as int, b.len() as int, 8, s);
        lemma_run_unique::<T>(a, b, s.skip(8));
    }

    fn encode(&self, out: &mut Vec<u8>) {
        encode_list(self.as_slice(), out);
    }

    fn decode(buf: &[u8]) -> (r: Result<(Vec<T>, usize), String>) {
        assert(buf@.len() == buf.len());
        let len: u64 = match u64::decode(buf) {
            Err(e) => {
                proof {
                    assert forall|m: Seq<T::Model>| !(#[trigger] Self::bytes(m)).is_prefix_of(buf@) by {
                        if Self::bytes(m).is_prefix_of(buf@) {
                            lemma_prefix_split(le(m.len() as int, 8), run::<T>(m), buf@);
                            lemma_le_len(m.len() as int, 8);
                            lemma_run_len::<T>(m);
                            assert(u64::bytes(m.len() as u64).is_prefix_of(buf@));
                        }
                    }
                }
                return Err(e);
            },
            Ok((v, k)) => {
                proof {
                    lemma_le_len(v as int, 8);
                    assert(buf@.take(k as int).len() == k);
                }
                v
            },
        };
        proof {
            lemma_le_len(len as int, 8);
            assert(buf@.take(8) == le(len as int, 8));
            assert(le(len as int, 8).is_prefix_of(buf@)) by {
                assert(buf@.take(8) =~= buf@.subrange(0, 8));
            }
            lemma_parsed::<u64>(len, buf@);
            // Whatever leads the input as a list has this many values.
            assert forall|m: Seq<T::Model>| (#[trigger] Self::bytes(m)).is_prefix_of(buf@) implies m.len() == len
                && run::<T>(m).is_prefix_of(buf@.skip(8)) && m.len() <= buf@.len() - 8 by {
                lemma_prefix_split(le(m.len() as int, 8), run::<T>(m), buf@);
                lemma_le_len(m.len() as int, 8);
                lemma_run_len::<T>(m);
                lemma_pow256_values();
                lemma_fixed_width(m.len() as int, len as int, 8, buf@);
            }
        }
        let mut v: Vec<T> = Vec::new();
        let mut pos: usize = 8;
        let mut i: u64 = 0;
        assert(run::<T>(models::<T>(v@)) =~= Seq::<u8>::empty());
        assert(buf@.subrange(8, 8) =~= Seq::<u8>::empty());
        while i < len
            invariant
                i <= len,
                v@.len() == i,
                run_refusal::<T>(len as nat, buf@.skip(8)) == run_refusal::<T>((len - i) as nat, buf@.skip(pos as int)),
                Self::refusal(buf@) == run_refusal::<T>(len as nat, buf@.skip(8)),
                buf@.len() == buf.len(),
                8 <= pos <= buf@.len(),
                buf@.subrange(8, pos as int) == run::<T>(models::<T>(v@)),
                forall|m: Seq<T::Model>| (#[trigger] Self::bytes(m)).is_prefix_of(buf@) ==> m.len() == len
                    && run::<T>(m).is_prefix_of(buf@.skip(8)) && m.len() <= buf@.len() - 8,
            decreases len - i,
        {
            let rest = slice_subrange(buf, pos, buf.len());
            assert(rest@ =~= buf@.skip(pos as int));
            match T::decode(rest) {
                Err(e) => {
                    proof {
                        let done = models::<T>(v@);
                        assert forall|m: Seq<T::Model>| !(#[trigger] Self::bytes(m)).is_prefix_of(buf@) by {
                            if Self::bytes(m).is_prefix_of(buf@) {
                                let tail = buf@.skip(8);
                                let first = m.take(i as int);
                                let last = m.skip(i as int);
                                assert(m =~= first + last);
                                lemma_run_split::<T>(first, last);
                                lemma_prefix_split(run::<T>(first), run::<T>(last), tail);
                                assert(run::<T>(done).is_prefix_of(tail)) by {
                                    assert(tail.subrange(0, pos - 8) =~= buf@.subrange(8, pos as int));
                                }
                                lemma_run_unique::<T>(first, done, tail);
                                assert(tail.skip(pos - 8) =~= rest@);
                                lemma_prefix_split(T::bytes(last[0]), run::<T>(last.drop_first()), rest@);
                            }
                        }
                    }
                    return Err(e);
                },
                Ok((x, k)) => {
                    proof {
                        assert(rest@.take(k as int) =~= rest@.subrange(0, k as int));
                        assert(rest@.len() == rest.len());
                        lemma_parsed::<T>(x.model(), rest@);
                        assert(rest@.take(k as int).len() == k);
                        assert(rest@.skip(k as int) =~= buf@.skip(pos + k));
                        let done = models::<T>(v@);
                        let m = x.model();
                        lemma_run_split::<T>(done, seq![m]);
                        lemma_run_one::<T>(m);
                        assert(models::<T>(v@.push(x)) =~= done + seq![m]);
                        assert(buf@.subrange(8, pos + k) =~= buf@.subrange(8, pos as int) + rest@.take(k as int));
                    }
                    v.push(x);
                    pos = pos + k;
                },
            }
            i += 1;
        }
        assert(buf@.take(pos as int) =~= buf@.take(8) + buf@.subrange(8, pos as int));
        Ok((v, pos))
    }
}

} // verus!
