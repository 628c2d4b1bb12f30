//! What clients and operators are told.

use crate::laws::numbers::law_ids_in_text;
use crate::message::PeerView;
use crate::node::{is_configured, is_key, is_readable};
use crate::rpc::{answers, id_in, id_of, ApiResponse, Status};
use crate::store::{nonce_at, nonce_key, Db, Slot};
use crate::text::{hex_text, hex_value, law_hex_read_back, unhex};
use crate::types::{Id, PeerConfig};
use crate::wire::Wire;
use vstd::prelude::*;

verus! {

/// The bytes of an id stand for that id and no other.
pub proof fn law_id_of(id: Id)
    ensures
        id_of(id@) == id,
{
    let c = id_of(id@);
    assert(c@ == id@);
    crate::bytes::lemma_array_of_view(c, id);
}

/// Whoever asks for a record under an id that is written out gets that record if it is
/// there, as a success and with "ok", and is told otherwise that there is none.
pub proof fn law_look_up<T: Wire>(r: Result<ApiResponse<T>, Status>, id: Id, find: spec_fn(Seq<u8>) -> Slot<T::Model>)
    requires
        answers::<T>(r, hex_text(id@), find),
    ensures
        find(id@) matches Slot::Present(m) ==> (r matches Ok(a) && a.result && a.message@ == "ok"@ && (a.data matches Some(v) && v.model() == m)),
        find(id@) !is Present ==> (r matches Err(Status::NotFound)),
{
    law_hex_read_back(id@);
}

/// Whoever asks with a text that is not 64 hexadecimal digits is told that this makes
/// no sense.
pub proof fn law_bad_look_up<T: Wire>(r: Result<ApiResponse<T>, Status>, text: Seq<char>, find: spec_fn(Seq<u8>) -> Slot<T::Model>)
    requires
        answers::<T>(r, text, find),
    ensures
        (r matches Err(Status::BadRequest)) <==> text.len() != 64 || exists|i: int| 0 <= i < 64 && hex_value(#[trigger] text[i]) is None,
{
    law_ids_in_text(text);
    if id_in(text) is None && text.len() == 64 {
        assert(exists|i: int| 0 <= i < 64 && hex_value(#[trigger] text[i]) is None);
    }
}

/// A key is 64 hexadecimal digits, and a key that is written out is one.
pub proof fn law_keys_in_text(text: Seq<char>, key: Seq<u8>)
    requires
        key.len() == 32,
    ensures
        is_key(text) <==> text.len() == 64 && forall|i: int| 0 <= i < 64 ==> hex_value(#[trigger] text[i]) is Some,
        is_key(hex_text(key)) && unhex(hex_text(key)) == Some(key),
{
    law_ids_in_text(text);
    law_hex_read_back(key);
}

/// A peer that is configured by its id and its key, both written out, is that peer, at
/// the address that is configured. It can be read just where both are keys.
pub proof fn law_configured_peer(c: PeerConfig, p: PeerView)
    ensures
        c.id@ == hex_text(p.id@) && c.public_key@ == hex_text(p.public_key@) && c.address@ == p.address ==> is_configured(p, c) && is_readable(c),
        is_configured(p, c) ==> is_readable(c) && p.address == c.address@,
        forall|q: PeerView| is_configured(p, c) && #[trigger] is_configured(q, c) ==> q == p,
{
    law_hex_read_back(p.id@);
    law_hex_read_back(p.public_key@);
    assert forall|q: PeerView| is_configured(p, c) && #[trigger] is_configured(q, c) implies q == p by {
        crate::bytes::lemma_array_of_view(p.id, q.id);
        crate::bytes::lemma_array_of_view(p.public_key, q.public_key);
    }
}

/// Whoever has sent nothing has used no nonce.
pub proof fn law_nonce_at_first(db: Db, sender: Id)
    requires
        !db.dom().contains(nonce_key(sender)),
    ensures
        nonce_at(db, sender) == 0,
{
}

} // verus!
