//! Hashing, signatures and the clock.

use ed25519_dalek::{Signer, Verifier};
use vstd::prelude::*;

verus! {

// ── blake3 ──

/// The 32-byte blake3 hash of `data`.
pub uninterp spec fn blake3_hash(data: Seq<u8>) -> Seq<u8>;

/// `blake3::hash`: the hash of the whole input, named `blake3_hash`.
#[verifier::external_body]
fn blake3_of(data: &[u8]) -> (r: [u8; 32])
    ensures
        r@ == blake3_hash(data@),
{
    *blake3::hash(data).as_bytes()
}

/// The streaming hasher of the blake3 crate.
#[verifier::external_type_specification]
#[verifier::external_body]
pub struct ExHasher(blake3::Hasher);

/// The bytes that a hasher was fed, in order.
pub uninterp spec fn hasher_input(h: blake3::Hasher) -> Seq<u8>;

/// Does the hasher compute the plain hash of its input, from the start of it, with no
/// key and no context string?
pub uninterp spec fn hasher_is_plain(h: blake3::Hasher) -> bool;

/// `blake3::Hasher::new`: a plain hasher that was fed nothing.
#[verifier::external_body]
pub(crate) fn hasher_new() -> (h: blake3::Hasher)
    ensures
        hasher_input(h) == Seq::<u8>::empty(),
        hasher_is_plain(h),
{
    blake3::Hasher::new()
}

/// `blake3::Hasher::update`: the input of a plain hasher grows by `data` at its end,
/// and the hasher stays plain.
#[verifier::external_body]
pub(crate) fn hasher_update(h: &mut blake3::Hasher, data: &[u8])
    requires
        hasher_is_plain(*old(h)),
    ensures
        hasher_input(*final(h)) == hasher_input(*old(h)) + data@,
        hasher_is_plain(*final(h)),
{
    h.update(data);
}

/// `blake3::Hasher::finalize`: of a plain hasher, the hash of all that it was fed.
#[verifier::external_body]
pub(crate) fn hasher_finalize(h: &blake3::Hasher) -> (r: [u8; 32])
    requires
        hasher_is_plain(*h),
    ensures
        r@ == blake3_hash(hasher_input(*h)),
{
    *h.finalize().as_bytes()
}

/// blake3 hash of data.
pub fn hash(data: &[u8]) -> (r: [u8; 32])
    ensures
        r@ == blake3_hash(data@),
{
    blake3_of(data)
}

/// Several byte strings, one after the other.
pub open spec fn joined(chunks: Seq<&[u8]>) -> Seq<u8>
    decreases chunks.len(),
{
    if chunks.len() == 0 {
        Seq::empty()
    } else {
        joined(chunks.drop_last()) + chunks.last()@
    }
}

/// blake3 hash of multiple data chunks: the hash of the chunks joined.
pub fn hash_concat(chunks: &[&[u8]]) -> (r: [u8; 32])
    ensures
        r@ == blake3_hash(joined(chunks@)),
{
    let mut hasher = hasher_new();
    let n: usize = chunks.len();
    let mut i: usize = 0;
    while i < n
        invariant
            n == chunks@.len(),
            i <= n,
            hasher_is_plain(hasher),
            hasher_input(hasher) == joined(chunks@.take(i as int)),
        decreases n - i,
    {
        hasher_update(&mut hasher, chunks[i]);
        proof {
            let t = chunks@.take(i + 1);
            assert(t.drop_last() =~= chunks@.take(i as int));
        }
        i += 1;
    }
    assert(chunks@.take(n as int) =~= chunks@);
    hasher_finalize(&hasher)
}

// ── Ed25519 ──

/// The public key that belongs to a private key.
pub uninterp spec fn ed25519_public(private_key: Seq<u8>) -> Seq<u8>;

/// The signature of `data` under a private key.
pub uninterp spec fn ed25519_signature(data: Seq<u8>, private_key: Seq<u8>) -> Seq<u8>;

/// Is `signature` a valid signature of `data` under a public key?
pub uninterp spec fn ed25519_valid(data: Seq<u8>, signature: Seq<u8>, public_key: Seq<u8>) -> bool;

/// `ed25519_dalek::SigningKey::generate` with the operating system's generator:
/// a private key. Nothing is said of it, for it is random.
#[verifier::external_body]
fn ed25519_generate() -> (r: [u8; 32]) {
    ed25519_dalek::SigningKey::generate(&mut rand::rngs::OsRng).to_bytes()
}

/// `ed25519_dalek::SigningKey::verifying_key`: the public key of a private key,
/// named `ed25519_public`.
#[verifier::external_body]
fn ed25519_public_key(private_key: &[u8; 32]) -> (r: [u8; 32])
    ensures
        r@ == ed25519_public(private_key@),
{
    ed25519_dalek::SigningKey::from_bytes(private_key).verifying_key().to_bytes()
}

/// `ed25519_dalek::SigningKey::sign`: the signature named `ed25519_signature`, which
/// is valid under the public key of the same private key.
#[verifier::external_body]
fn ed25519_sign(data: &[u8], private_key: &[u8; 32]) -> (r: [u8; 64])
    ensures
        r@ == ed25519_signature(data@, private_key@),
        ed25519_valid(data@, r@, ed25519_public(private_key@)),
{
    ed25519_dalek::SigningKey::from_bytes(private_key).sign(data).to_bytes()
}

/// `ed25519_dalek::VerifyingKey::verify`: validity under the public key, named
/// `ed25519_valid`. Bytes that are no public key validate nothing.
#[verifier::external_body]
fn ed25519_verify(data: &[u8], signature: &[u8; 64], public_key: &[u8; 32]) -> (r: bool)
    ensures
        r == ed25519_valid(data@, signature@, public_key@),
{
    let signature = ed25519_dalek::Signature::from_bytes(signature);
    ed25519_dalek::VerifyingKey::from_bytes(public_key).and_then(|key| key.verify(data, &signature)).is_ok()
}

/// Generate a new Ed25519 keypair.
/// Returns (public_key_32bytes, private_key_32bytes).
pub fn generate_keypair() -> (r: ([u8; 32], [u8; 32]))
    ensures
        r.0@ == ed25519_public(r.1@),
{
    let private_key = ed25519_generate();
    (ed25519_public_key(&private_key), private_key)
}

/// Sign data with an Ed25519 private key.
pub fn sign(data: &[u8], private_key: &[u8; 32]) -> (r: [u8; 64])
    ensures
        r@ == ed25519_signature(data@, private_key@),
        ed25519_valid(data@, r@, ed25519_public(private_key@)),
{
    ed25519_sign(data, private_key)
}

/// Verify an Ed25519 signature.
pub fn verify(data: &[u8], signature: &[u8; 64], public_key: &[u8; 32]) -> (r: bool)
    ensures
        r == ed25519_valid(data@, signature@, public_key@),
{
    ed25519_verify(data, signature, public_key)
}

// ── Clock ──

/// `std::time::SystemTime::duration_since` of now and the Unix epoch: milliseconds
/// since it, or (as the error) before it. Nothing is said of the time.
#[verifier::external_body]
fn clock_ms() -> (r: Result<u128, u128>) {
    std::time::SystemTime::now()
        .duration_since(std::time::UNIX_EPOCH)
        .map(|d| d.as_millis())
        .map_err(|e| e.duration().as_millis())
}

/// The number with the low 64 bits of `n` in two's complement.
pub open spec fn low_i64(n: int) -> int {
    let low = n % 0x1_0000_0000_0000_0000;
    if low < 0x8000_0000_0000_0000 {
        low
    } else {
        low - 0x1_0000_0000_0000_0000
    }
}

/// A timestamp from what the clock says: milliseconds since the epoch, negative
/// before it, cut to 64 bits.
pub fn timestamp_of(clock: Result<u128, u128>) -> (r: i64)
    ensures
        r == match clock {
            Ok(ms) => low_i64(ms as int),
            Err(ms) => low_i64(-(ms as int)),
        },
        clock matches Ok(ms) ==> ms <= i64::MAX ==> r == ms,
        clock matches Err(ms) ==> ms <= i64::MAX ==> r == -ms,
{
    match clock {
        Ok(ms) => low_bits(ms),
        Err(ms) => {
            let low: u64 = (ms % 0x1_0000_0000_0000_0000) as u64;
            let neg: u128 = (0x1_0000_0000_0000_0000 - low as u128) % 0x1_0000_0000_0000_0000;
            low_bits(neg)
        },
    }
}

fn low_bits(n: u128) -> (r: i64)
    ensures
        r == low_i64(n as int),
{
    assert(n % 0x1_0000_0000_0000_0000 < 0x8000_0000_0000_0000 ==> n as i64 == n % 0x1_0000_0000_0000_0000) by (bit_vector);
    assert(n % 0x1_0000_0000_0000_0000 >= 0x8000_0000_0000_0000 ==> n as i64 + 0x1_0000_0000_0000_0000 == n
        % 0x1_0000_0000_0000_0000) by (bit_vector);
    #[verifier::truncate]
    (n as i64)
}

/// Current unix timestamp in milliseconds: `timestamp_of` what the clock says.
/// Nothing is said of the number, for the clock may say anything.
pub fn now_ms() -> i64 {
    timestamp_of(clock_ms())
}

} // verus!
