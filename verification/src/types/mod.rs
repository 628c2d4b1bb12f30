//! The data that nodes exchange and store.

use crate::bytes::{append, le, lemma_array_of_view, lemma_prefix_split, lemma_prefixes_agree};
use crate::wire::{leading_array, lemma_parsed, lemma_run_bytes, parsed, Wire};
use vstd::prelude::*;

pub mod block;
pub mod config;
pub mod state;
pub mod transaction;

pub use block::{Block, BlockHeader, BlockView, NodeSignature};
pub use config::{ConsensusSettings, DisputeSettings, NodeConfig, NodeSettings, PeerConfig, RCWSettings, RewardConfig, RpcSettings};
pub use state::{compute_trust_score, AnchorRecord, Dispute, DisputeState, DisputeView, DisputeVote, Escrow, EscrowState, Event, EventView, Participant, ParticipantView, RCWBalance, SettlementRecord};
pub use transaction::{DisputeDecision, DisputeReason, ParticipantType, PayloadView, SettlementData, Transaction, TransactionView, TxPayload};

verus! {

/// 32-byte identifier: a public key, or a name that its maker chose.
pub type Id = [u8; 32];

/// 32-byte blake3 hash.
pub type Hash = [u8; 32];

/// The hash that stands for nothing: all zeros.
pub const EMPTY_HASH: Hash = [0, 0, 0, 0, 0, 0, 0, 0, 0, 0, 0, 0, 0, 0, 0, 0, 0, 0, 0, 0, 0, 0, 0, 0, 0, 0, 0, 0, 0, 0, 0, 0];

/// The identifier of nobody: all zeros.
pub const ZERO_ID: Id = [0, 0, 0, 0, 0, 0, 0, 0, 0, 0, 0, 0, 0, 0, 0, 0, 0, 0, 0, 0, 0, 0, 0, 0, 0, 0, 0, 0, 0, 0, 0, 0];

/// 64-byte Ed25519 signature.
#[derive(Debug, Clone, Copy, PartialEq, Eq)]
pub struct Signature(pub [u8; 64]);

impl Default for Signature {
    fn default() -> (r: Signature)
        ensures
            forall|i: int| 0 <= i < 64 ==> r.0@[i] == 0,
    {
        Signature([0u8; 64])
    }
}

/// A signature is written with its length, as any string of bytes is.
impl Wire for Signature {
    type Model = Signature;

    open spec fn model(&self) -> Signature {
        *self
    }

    open spec fn bytes(m: Signature) -> Seq<u8> {
        le(64, 8) + m.0@
    }

    open spec fn refusal(s: Seq<u8>) -> Seq<char> {
        match parsed::<Vec<u8>>(s) {
            None => Vec::<u8>::refusal(s),
            Some(_) => "Signature must be 64 bytes"@,
        }
    }

    proof fn lemma_nonempty(m: Signature) {
    }

    proof fn lemma_unique(a: Signature, b: Signature, s: Seq<u8>) {
        lemma_prefix_split(le(64, 8), a.0@, s);
        lemma_prefix_split(le(64, 8), b.0@, s);
        lemma_prefixes_agree(a.0@, b.0@, s.skip(le(64, 8).len() as int));
        lemma_array_of_view(a.0, b.0);
    }

    fn encode(&self, out: &mut Vec<u8>) {
        let ghost before = out@;
        64u64.encode(out);
        append(out, self.0.as_slice());
        assert(out@ =~= before + Self::bytes(*self));
    }

    fn decode(buf: &[u8]) -> (r: Result<(Signature, usize), String>) {
        proof {
            assert forall|m: Signature| #[trigger] Self::bytes(m) == Vec::<u8>::bytes(m.0@) by {
                lemma_run_bytes(m.0@);
            }
        }
        match Vec::<u8>::decode(buf) {
            Err(e) => Err(e),
            Ok((v, n)) => {
                proof {
                    assert(v.model() =~= v@);
                    assert(buf@.len() == buf.len());
                    assert(buf@.take(n as int) =~= buf@.subrange(0, n as int));
                    lemma_parsed::<Vec<u8>>(v@, buf@);
                }
                if v.len() != 64 {
                    proof {
                        assert forall|m: Signature| !(#[trigger] Self::bytes(m)).is_prefix_of(buf@) by {
                            if Self::bytes(m).is_prefix_of(buf@) {
                                Vec::<u8>::lemma_unique(m.0@, v@, buf@);
                            }
                        }
                    }
                    Err("Signature must be 64 bytes".to_string())
                } else {
                    let sig = Signature(leading_array::<64>(v.as_slice()));
                    assert(sig.0@ =~= v@);
                    Ok((sig, n))
                }
            },
        }
    }
}

} // verus!
