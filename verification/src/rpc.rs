//! What the node answers to its clients.

use crate::crypto::{ed25519_valid, verify};
use crate::state::machine::is_signed;
use crate::store::{balance_at, block_at, dispute_at, escrow_at, latest_height, participant_at, settlement_at, Slot, Store};
use crate::text::{hex_decode, hex_refusal, parse_hex, unhex};
use crate::types::state::{age_fits, can_score, compute_trust_score, trust_score};
use crate::types::{Block, Dispute, Escrow, Id, Participant, SettlementRecord, Signature, Transaction, TxPayload};
use crate::wire::{leading_array, to_bytes, Wire};
use vstd::prelude::*;

verus! {

/// Why a request is turned down.
#[derive(Debug, Clone, Copy, PartialEq, Eq, Structural)]
pub enum Status {
    /// The request makes no sense.
    BadRequest,
    /// The signature is not the sender's.
    Unauthorized,
    /// There is no such thing.
    NotFound,
    /// The node failed.
    InternalServerError,
}

/// Standard API response.
pub struct ApiResponse<T> {
    pub result: bool,
    pub message: String,
    pub data: Option<T>,
}

/// RCW Balance response.
pub struct BalanceResponse {
    pub owner: String,
    pub earned: u64,
    pub purchased: u64,
    pub total: u64,
}

/// Chain status response.
pub struct StatusResponse {
    pub chain: String,
    pub latest_height: u64,
    pub version: String,
}

/// Transaction submit request.
pub struct SubmitTxRequest {
    pub payload: TxPayload,
    pub sender: String,
    pub signature: String,
    pub nonce: u64,
}

/// What the trust score of a participant is reported from.
pub struct TrustProfile {
    pub participant: Participant,
    pub score: u16,
}

/// A successful response that carries `data`.
pub open spec fn carries<T>(r: ApiResponse<T>, message: Seq<char>, data: T) -> bool {
    r.result && r.message@ == message && r.data == Some(data)
}

fn ok<T>(data: T) -> (r: ApiResponse<T>)
    ensures
        carries(r, "ok"@, data),
{
    ApiResponse { result: true, message: "ok".to_string(), data: Some(data) }
}

/// The id that a text stands for: 32 bytes in hexadecimal digits.
pub open spec fn id_in(text: Seq<char>) -> Option<Seq<u8>> {
    match unhex(text) {
        Some(bytes) => if bytes.len() == 32 {
            Some(bytes)
        } else {
            None
        },
        None => None,
    }
}

/// Read an id; an error exactly where the text stands for none.
pub fn hex_to_id(hex: &str) -> (r: Result<Id, String>)
    ensures
        match r {
            Ok(id) => id_in(hex@) == Some(id@),
            Err(e) => id_in(hex@) is None && e@ == if unhex(hex@) is Some {
                "ID must be 32 bytes"@
            } else {
                hex_refusal(hex@)
            },
        },
{
    match hex_decode(hex) {
        Err(e) => Err(e),
        Ok(bytes) => {
            if bytes.len() != 32 {
                return Err("ID must be 32 bytes".to_string());
            }
            let id = leading_array::<32>(bytes.as_slice());
            assert(id@ =~= bytes@);
            Ok(id)
        },
    }
}

/// How a look-up by id is answered: bad text is refused, and what is not there or
/// cannot be read is not found.
pub open spec fn answers<T: Wire>(r: Result<ApiResponse<T>, Status>, text: Seq<char>, find: spec_fn(Seq<u8>) -> Slot<T::Model>) -> bool {
    match id_in(text) {
        None => r matches Err(Status::BadRequest),
        Some(id) => match find(id) {
            Slot::Present(m) => r matches Ok(a) && a.result && a.message@ == "ok"@ && (a.data matches Some(v) && v.model() == m),
            _ => r matches Err(Status::NotFound),
        },
    }
}

pub fn get_status(store: &Store, version: &str) -> (r: ApiResponse<StatusResponse>)
    ensures
        r.result,
        r.message@ == "ok"@,
        r.data matches Some(d) && d.chain@ == "routinechain"@ && d.latest_height == latest_height(store@) && d.version@ == version@,
{
    let height: u64 = store.get_latest_height();
    ok(StatusResponse { chain: "routinechain".to_string(), latest_height: height, version: version.to_string() })
}

pub fn get_block(store: &Store, height: u64) -> (r: Result<ApiResponse<Block>, Status>)
    ensures
        match block_at(store@, height) {
            Slot::Present(m) => r matches Ok(a) && a.result && a.message@ == "ok"@ && (a.data matches Some(b) && b@ == m),
            _ => r matches Err(Status::NotFound),
        },
{
    match store.get_block(height) {
        Ok(Some(block)) => Ok(ok(block)),
        _ => Err(Status::NotFound),
    }
}

/// The id with these bytes.
pub open spec fn id_of(bytes: Seq<u8>) -> Id {
    choose|id: Id| id@ == bytes
}

proof fn lemma_id_of(id: Id)
    ensures
        id_of(id@) == id,
{
    let c = id_of(id@);
    assert(c@ == id@);
    crate::bytes::lemma_array_of_view(c, id);
}

pub fn get_participant(store: &Store, id: &str) -> (r: Result<ApiResponse<Participant>, Status>)
    ensures
        answers::<Participant>(r, id@, |b: Seq<u8>| participant_at(store@, id_of(b))),
{
    let id = match hex_to_id(id) {
        Ok(id) => id,
        Err(_) => return Err(Status::BadRequest),
    };
    proof {
        lemma_id_of(id);
    }
    match store.get_participant(&id) {
        Ok(Some(p)) => Ok(ok(p)),
        _ => Err(Status::NotFound),
    }
}

pub fn get_settlement(store: &Store, id: &str) -> (r: Result<ApiResponse<SettlementRecord>, Status>)
    ensures
        answers::<SettlementRecord>(r, id@, |b: Seq<u8>| settlement_at(store@, id_of(b))),
{
    let id = match hex_to_id(id) {
        Ok(id) => id,
        Err(_) => return Err(Status::BadRequest),
    };
    proof {
        lemma_id_of(id);
    }
    match store.get_settlement(&id) {
        Ok(Some(s)) => Ok(ok(s)),
        _ => Err(Status::NotFound),
    }
}

pub fn get_escrow(store: &Store, id: &str) -> (r: Result<ApiResponse<Escrow>, Status>)
    ensures
        answers::<Escrow>(r, id@, |b: Seq<u8>| escrow_at(store@, id_of(b))),
{
    let id = match hex_to_id(id) {
        Ok(id) => id,
        Err(_) => return Err(Status::BadRequest),
    };
    proof {
        lemma_id_of(id);
    }
    match store.get_escrow(&id) {
        Ok(Some(e)) => Ok(ok(e)),
        _ => Err(Status::NotFound),
    }
}

pub fn get_dispute(store: &Store, id: &str) -> (r: Result<ApiResponse<Dispute>, Status>)
    ensures
        answers::<Dispute>(r, id@, |b: Seq<u8>| dispute_at(store@, id_of(b))),
{
    let id = match hex_to_id(id) {
        Ok(id) => id,
        Err(_) => return Err(Status::BadRequest),
    };
    proof {
        lemma_id_of(id);
    }
    match store.get_dispute(&id) {
        Ok(Some(d)) => Ok(ok(d)),
        _ => Err(Status::NotFound),
    }
}

/// The participant with its trust score; nothing where the participant's age cannot
/// be reckoned.
pub fn get_trust_score(store: &Store, id: &str) -> (r: Option<Result<TrustProfile, Status>>)
    ensures
        match id_in(id@) {
            None => r matches Some(Err(Status::BadRequest)),
            Some(b) => match participant_at(store@, id_of(b)) {
                Slot::Unreadable(_) => r matches Some(Err(Status::InternalServerError)),
                Slot::Absent => r matches Some(Err(Status::NotFound)),
                Slot::Present(p) => if age_fits(p) {
                    r matches Some(Ok(t)) && t.participant@ == p && t.score == trust_score(p)
                } else {
                    r is None
                },
            },
        },
{
    let id = match hex_to_id(id) {
        Ok(id) => id,
        Err(_) => return Some(Err(Status::BadRequest)),
    };
    proof {
        lemma_id_of(id);
    }
    match store.get_participant(&id) {
        Err(_) => Some(Err(Status::InternalServerError)),
        Ok(None) => Some(Err(Status::NotFound)),
        Ok(Some(p)) => {
            if !can_score(&p) {
                return None;
            }
            let score: u16 = compute_trust_score(&p);
            Some(Ok(TrustProfile { participant: p, score }))
        },
    }
}

/// The balance of an owner; nothing where its total is out of range.
pub fn get_balance(store: &Store, id: &str) -> (r: Option<Result<ApiResponse<BalanceResponse>, Status>>)
    ensures
        match id_in(id@) {
            None => r matches Some(Err(Status::BadRequest)),
            Some(b) => match balance_at(store@, id_of(b)) {
                Err(_) => r matches Some(Err(Status::InternalServerError)),
                Ok(bal) => if bal.spec_total() > u64::MAX {
                    r is None
                } else {
                    r matches Some(Ok(a)) && a.result && a.message@ == "ok"@ && (a.data matches Some(d) && d.owner@ == id@ && d.earned
                        == bal.earned && d.purchased == bal.purchased && d.total == bal.spec_total() && d.total == bal.earned + bal.purchased)
                },
            },
        },
{
    let id_bytes = match hex_to_id(id) {
        Ok(id) => id,
        Err(_) => return Some(Err(Status::BadRequest)),
    };
    proof {
        lemma_id_of(id_bytes);
    }
    match store.get_balance(&id_bytes) {
        Err(_) => Some(Err(Status::InternalServerError)),
        Ok(bal) => {
            if bal.earned.checked_add(bal.purchased).is_none() {
                return None;
            }
            Some(Ok(ok(BalanceResponse { owner: id.to_string(), earned: bal.earned, purchased: bal.purchased, total: bal.total() })))
        },
    }
}

/// The 64 bytes of a signature in hexadecimal digits.
pub open spec fn signature_in(text: Seq<char>) -> Option<Seq<u8>> {
    match unhex(text) {
        Some(bytes) => if bytes.len() == 64 {
            Some(bytes)
        } else {
            None
        },
        None => None,
    }
}

/// Turn a request into a transaction: sender and signature must be readable, and
/// the signature the sender's.
pub fn accept_tx(req: SubmitTxRequest, timestamp: i64) -> (r: Result<Transaction, Status>)
    ensures
        match (id_in(req.sender@), signature_in(req.signature@)) {
            (Some(sender), Some(sig)) => if ed25519_valid(TxPayload::bytes(req.payload@), sig, sender) {
                r matches Ok(tx) && tx.payload == req.payload && tx.sender@ == sender && tx.signature.0@ == sig && tx.timestamp == timestamp
                    && tx.nonce == req.nonce
            } else {
                r matches Err(Status::Unauthorized)
            },
            _ => r matches Err(Status::BadRequest),
        },
        r matches Ok(tx) ==> is_signed(tx@),
{
    // Parse sender public key
    let sender = match hex_to_id(req.sender.as_str()) {
        Ok(id) => id,
        Err(_) => return Err(Status::BadRequest),
    };

    // Parse signature (128 hex chars = 64 bytes)
    let sig_arr: [u8; 64] = match parse_hex::<64>(req.signature.as_str()) {
        Some(sig) => sig,
        None => return Err(Status::BadRequest),
    };

    // Verify Ed25519 signature over serialized payload
    let payload_bytes = to_bytes::<TxPayload>(&req.payload);
    if !verify(payload_bytes.as_slice(), &sig_arr, &sender) {
        return Err(Status::Unauthorized);
    }

    Ok(Transaction { payload: req.payload, sender, signature: Signature(sig_arr), timestamp, nonce: req.nonce })
}

/// What is answered once a transaction has been handed on, or could not be.
pub fn submitted(handed_on: bool) -> (r: Result<ApiResponse<String>, Status>)
    ensures
        if handed_on {
            r matches Ok(a) && a.result && a.message@ == "Transaction submitted"@ && (a.data matches Some(d) && d@ == "accepted"@)
        } else {
            r matches Err(Status::InternalServerError)
        },
{
    if handed_on {
        Ok(ApiResponse { result: true, message: "Transaction submitted".to_string(), data: Some("accepted".to_string()) })
    } else {
        Err(Status::InternalServerError)
    }
}

} // verus!
