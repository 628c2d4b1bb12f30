//! PBFT-like consensus for a fixed validator set: the leader rotates with each
//! block, followers sign what it proposes, and enough signatures make it final.

use crate::bytes::{contains_id, lemma_array_of_view, same_id};
use crate::crypto::{blake3_hash, ed25519_public, ed25519_signature, ed25519_valid, hash, now_ms, sign, verify};
use crate::message::{Peer, PeerView};
use crate::roster::{in_order, lemma_order_keeps, sort_ids};
use crate::types::{Block, BlockHeader, BlockView, Id, NodeSignature, Signature, Transaction, TransactionView, EMPTY_HASH};
use crate::votes::{cast, kept_from, voters, VoteBook, Votes};
use crate::wire::{encode_list, models, to_bytes, Wire};
use vstd::prelude::*;

verus! {

// ── Hashes ──

/// What identifies a block: the hash of its header.
pub open spec fn header_hash(header: BlockHeader) -> Seq<u8> {
    blake3_hash(BlockHeader::bytes(header))
}

/// The hash of a list of transactions; all zeros for none.
pub open spec fn tx_hash(txs: Seq<TransactionView>) -> Seq<u8> {
    if txs.len() == 0 {
        EMPTY_HASH@
    } else {
        blake3_hash(Vec::<Transaction>::bytes(txs))
    }
}

/// Compute blake3 hash of a block header (used as block identity and prev_hash).
pub fn block_header_hash(header: &BlockHeader) -> (r: crate::types::Hash)
    ensures
        r@ == header_hash(*header),
{
    let bytes = to_bytes::<BlockHeader>(header);
    hash(bytes.as_slice())
}

/// Compute tx_hash from a list of transactions.
pub fn compute_tx_hash(transactions: &[Transaction]) -> (r: crate::types::Hash)
    ensures
        r@ == tx_hash(models::<Transaction>(transactions@)),
{
    if transactions.len() == 0 {
        EMPTY_HASH
    } else {
        let mut bytes: Vec<u8> = Vec::new();
        encode_list::<Transaction>(transactions, &mut bytes);
        assert(bytes@ =~= Vec::<Transaction>::bytes(models::<Transaction>(transactions@)));
        hash(bytes.as_slice())
    }
}

// ── What a node stands for ──

/// What a node's side of the consensus stands for.
pub struct ConsensusView {
    pub node_id: Id,
    pub private_key: [u8; 32],
    pub peers: Seq<PeerView>,
    pub min_signatures: usize,
    pub pending: Seq<TransactionView>,
    pub round: u32,
    pub votes: Votes,
}

pub open spec fn peer_views(peers: Seq<Peer>) -> Seq<PeerView> {
    Seq::new(peers.len(), |i: int| peers[i]@)
}

pub open spec fn peer_ids(peers: Seq<PeerView>) -> Seq<Id> {
    Seq::new(peers.len(), |i: int| peers[i].id)
}

impl ConsensusView {
    /// All nodes that this one knows, itself included, in order.
    pub open spec fn roster(self) -> Seq<Id> {
        in_order(peer_ids(self.peers).push(self.node_id))
    }

    /// Whose turn it is: the nodes take turns in order, and each round passes the
    /// turn on.
    pub open spec fn leader(self, height: u64, round: u32) -> Id {
        self.roster()[(height + round) % (self.roster().len() as int)]
    }

    /// How many votes change the leader: more than half of the nodes.
    pub open spec fn majority(self) -> int {
        self.roster().len() as int / 2 + 1
    }

    /// The key by which a node's signatures are checked: one's own id, or what is
    /// known of the peer.
    pub open spec fn key_of(self, id: Id) -> Option<[u8; 32]> {
        if id == self.node_id {
            Some(self.node_id)
        } else {
            peer_key(self.peers, id)
        }
    }

    /// Is this a known node's valid signature of the header?
    pub open spec fn is_valid(self, header: BlockHeader, sig: NodeSignature) -> bool {
        self.key_of(sig.node_id) matches Some(key) && ed25519_valid(BlockHeader::bytes(header), sig.signature.0@, key@)
    }

    /// The known nodes that validly signed a block.
    pub open spec fn signers(self, block: BlockView) -> Set<Id> {
        block.signatures.filter(|s: NodeSignature| self.is_valid(block.header, s)).map_values(|s: NodeSignature| s.node_id).to_set()
    }

    /// A node's signature of a header, valid under the public key of the node's
    /// private key.
    pub open spec fn is_own_signature(self, header: BlockHeader, sig: NodeSignature) -> bool {
        &&& sig.node_id == self.node_id
        &&& sig.signature.0@ == ed25519_signature(BlockHeader::bytes(header), self.private_key@)
        &&& ed25519_valid(BlockHeader::bytes(header), sig.signature.0@, ed25519_public(self.private_key@))
    }

    /// Does the first signature stand? It must be the proposer's, and valid by the key
    /// of a peer; one's own is not checked.
    pub open spec fn first_signature_stands(self, block: BlockView) -> bool {
        &&& block.signatures.len() > 0
        &&& block.signatures[0].node_id == block.header.proposer
        &&& block.header.proposer != self.node_id ==> (peer_key(self.peers, block.header.proposer) matches Some(key) && ed25519_valid(
            BlockHeader::bytes(block.header),
            block.signatures[0].signature.0@,
            key@,
        ))
    }

    /// Would the node sign the block? It comes from the leader, follows on the
    /// expected block, its first signature stands, and its hash covers its
    /// transactions.
    pub open spec fn accepts(self, block: BlockView, expected_prev_hash: crate::types::Hash) -> bool {
        &&& block.header.proposer == self.leader(block.header.height, self.round)
        &&& block.header.prev_hash == expected_prev_hash
        &&& self.first_signature_stands(block)
        &&& block.header.tx_hash@ == tx_hash(block.transactions)
    }

    /// After another node's vote for a round: a majority for a round that lies ahead
    /// begins it, and votes for lower heights are forgotten. Does it begin?
    pub open spec fn vote_of(self, height: u64, round: u32, from: Id) -> (ConsensusView, bool) {
        let votes = cast(self.votes, height, round, from);
        if voters(votes, height, round).len() >= self.majority() && round > self.round {
            (ConsensusView { round, votes: kept_from(votes, height), ..self }, true)
        } else {
            (ConsensusView { votes, ..self }, false)
        }
    }

    /// After the node's own vote for the next round.
    pub open spec fn own_vote(self, height: u64) -> (ConsensusView, bool) {
        self.vote_of(height, (self.round + 1) as u32, self.node_id)
    }

    /// With one more peer, if it is neither this node nor known. Is it new?
    pub open spec fn with_peer(self, peer: PeerView) -> (ConsensusView, bool) {
        if peer.id == self.node_id || peer_ids(self.peers).contains(peer.id) {
            (self, false)
        } else {
            (ConsensusView { peers: self.peers.push(peer), ..self }, true)
        }
    }

    /// Is `block` what the node proposes?
    pub open spec fn proposes(self, block: BlockView, timestamp: i64, height: u64, prev_hash: crate::types::Hash, state_root: crate::types::Hash) -> bool {
        let header = block.header;
        &&& header.height == height
        &&& header.prev_hash == prev_hash
        &&& header.timestamp == timestamp
        &&& header.tx_count == self.pending.len() % 0x1_0000_0000
        &&& header.tx_hash@ == tx_hash(self.pending)
        &&& header.state_root == state_root
        &&& header.proposer == self.node_id
        &&& block.transactions == self.pending
        &&& block.signatures.len() == 1
        &&& self.is_own_signature(header, block.signatures[0])
    }
}

/// Who validly signed depends on the nodes known, and on nothing else.
pub proof fn lemma_signers(a: ConsensusView, b: ConsensusView, block: BlockView)
    requires
        a.node_id == b.node_id,
        a.peers == b.peers,
    ensures
        a.signers(block) == b.signers(block),
{
    assert((|s: NodeSignature| a.is_valid(block.header, s)) =~= (|s: NodeSignature| b.is_valid(block.header, s)));
}

/// The sum of height and round can be reckoned.
pub open spec fn turn_fits(height: u64, round: u32) -> bool {
    height + round <= usize::MAX
}

/// The key of the first peer with an id.
pub open spec fn peer_key(peers: Seq<PeerView>, id: Id) -> Option<[u8; 32]>
    decreases peers.len(),
{
    if peers.len() == 0 {
        None
    } else if peers[0].id == id {
        Some(peers[0].public_key)
    } else {
        peer_key(peers.drop_first(), id)
    }
}

// ── The node's side ──

/// Simple PBFT-like consensus for fixed validator set.
/// Leader rotates each block: height % num_nodes.
pub struct Consensus {
    node_id: Id,
    private_key: [u8; 32],
    peers: Vec<Peer>,
    min_signatures: usize,
    pending_txs: Vec<Transaction>,
    /// Current round for view change (0 = normal, >0 = view change rounds).
    round: u32,
    /// View change votes collected.
    view_change_votes: VoteBook,
}

impl View for Consensus {
    type V = ConsensusView;

    closed spec fn view(&self) -> ConsensusView {
        ConsensusView {
            node_id: self.node_id,
            private_key: self.private_key,
            peers: peer_views(self.peers@),
            min_signatures: self.min_signatures,
            pending: models::<Transaction>(self.pending_txs@),
            round: self.round,
            votes: self.view_change_votes@,
        }
    }
}

impl Consensus {
    pub fn new(node_id: Id, private_key: [u8; 32], peers: Vec<Peer>, min_signatures: usize) -> (r: Consensus)
        ensures
            r@ == (ConsensusView {
                node_id,
                private_key,
                peers: peer_views(peers@),
                min_signatures,
                pending: Seq::empty(),
                round: 0,
                votes: Map::empty(),
            }),
    {
        let pending_txs: Vec<Transaction> = Vec::new();
        assert(models::<Transaction>(pending_txs@) =~= Seq::<TransactionView>::empty());
        Consensus { node_id, private_key, peers, min_signatures, pending_txs, round: 0, view_change_votes: VoteBook::new() }
    }

    /// Check if there are pending transactions without consuming them.
    pub fn has_pending_txs(&self) -> (r: bool)
        ensures
            r == (self@.pending.len() > 0),
    {
        self.pending_txs.len() > 0
    }

    /// Drain and return pending transactions.
    pub fn drain_pending_txs(&mut self) -> (r: Vec<Transaction>)
        ensures
            models::<Transaction>(r@) == old(self)@.pending,
            final(self)@ == (ConsensusView { pending: Seq::empty(), ..old(self)@ }),
    {
        let mut txs: Vec<Transaction> = Vec::new();
        std::mem::swap(&mut txs, &mut self.pending_txs);
        assert(models::<Transaction>(self.pending_txs@) =~= Seq::<TransactionView>::empty());
        txs
    }

    /// Push external transactions (from RPC channel) into pending pool.
    pub fn push_txs(&mut self, txs: Vec<Transaction>)
        ensures
            final(self)@ == (ConsensusView { pending: old(self)@.pending + models::<Transaction>(txs@), ..old(self)@ }),
    {
        let ghost (a, b) = (self.pending_txs@, txs@);
        let mut txs = txs;
        self.pending_txs.append(&mut txs);
        assert(models::<Transaction>(self.pending_txs@) =~= models::<Transaction>(a) + models::<Transaction>(b));
    }

    /// Get the expected leader for a given height, accounting for view change round.
    pub fn leader_for_height(&self, height: u64) -> (r: Id)
        requires
            turn_fits(height, self@.round),
        ensures
            r == self@.leader(height, self@.round),
    {
        self.leader_for_height_round(height, self.round)
    }

    /// Get leader for a specific height and round.
    pub fn leader_for_height_round(&self, height: u64, round: u32) -> (r: Id)
        requires
            turn_fits(height, round),
        ensures
            r == self@.leader(height, round),
    {
        let all_nodes = self.all_node_ids();
        proof {
            lemma_order_keeps(peer_ids(self@.peers).push(self@.node_id));
        }
        let leader_index: usize = ((height as usize) + (round as usize)) % all_nodes.len();
        all_nodes[leader_index]
    }

    /// Can the leader at a height be told?
    pub fn can_tell_leader(&self, height: u64) -> (r: bool)
        ensures
            r == turn_fits(height, self@.round),
    {
        height as u128 + self.round as u128 <= usize::MAX as u128
    }

    /// Am I the leader for this height?
    pub fn is_leader(&self, height: u64) -> (r: bool)
        requires
            turn_fits(height, self@.round),
        ensures
            r == (self@.leader(height, self@.round) == self@.node_id),
    {
        same_id(&self.leader_for_height(height), &self.node_id)
    }

    /// Get current round.
    pub fn round(&self) -> (r: u32)
        ensures
            r == self@.round,
    {
        self.round
    }

    /// Initiate a view change: vote for the next round when the leader is
    /// unresponsive. Returns true if the threshold is reached (majority of nodes
    /// voted): then the round begins, and votes for lower heights are forgotten.
    pub fn request_view_change(&mut self, height: u64) -> (r: bool)
        requires
            old(self)@.round < u32::MAX,
        ensures
            (final(self)@, r) == old(self)@.own_vote(height),
    {
        let next_round: u32 = self.round + 1;
        let total_nodes: usize = self.node_count();
        let threshold: usize = (total_nodes / 2) + 1; // simple majority
        let node_id = self.node_id;
        let count: usize = self.view_change_votes.cast(height, next_round, &node_id);
        if count >= threshold {
            self.round = next_round;
            self.view_change_votes.keep_from(height);
            true
        } else {
            false
        }
    }

    /// Process a view change vote from another node.
    /// Returns true if the threshold is reached and the round lies ahead.
    pub fn receive_view_change(&mut self, height: u64, round: u32, from: &Id) -> (r: bool)
        ensures
            (final(self)@, r) == old(self)@.vote_of(height, round, *from),
    {
        let total_nodes: usize = self.node_count();
        let threshold: usize = (total_nodes / 2) + 1;
        let count: usize = self.view_change_votes.cast(height, round, from);
        if count >= threshold && round > self.round {
            self.round = round;
            self.view_change_votes.keep_from(height);
            true
        } else {
            false
        }
    }

    /// Reset round when a new block is finalized.
    pub fn reset_round(&mut self)
        ensures
            final(self)@ == (ConsensusView { round: 0, votes: Map::empty(), ..old(self)@ }),
    {
        self.round = 0;
        self.view_change_votes.clear();
    }

    /// Add a dynamically discovered peer (peer discovery).
    /// Returns true if the peer was new: neither this node nor known.
    pub fn add_peer(&mut self, id: Id, public_key: [u8; 32], address: String) -> (r: bool)
        ensures
            (final(self)@, r) == old(self)@.with_peer(PeerView { id, address: address@, public_key }),
    {
        // Don't add self
        if same_id(&id, &self.node_id) {
            return false;
        }
        // Don't add duplicate
        let n: usize = self.peers.len();
        let mut i: usize = 0;
        while i < n
            invariant
                n == self.peers@.len(),
                i <= n,
                *self == *old(self),
                forall|j: int| 0 <= j < i ==> (#[trigger] self.peers@[j]).id != id,
            decreases n - i,
        {
            if same_id(&self.peers[i].id, &id) {
                assert(peer_ids(self@.peers)[i as int] == id);
                return false;
            }
            i += 1;
        }
        let ghost before = self.peers@;
        proof {
            if peer_ids(self@.peers).contains(id) {
                let j = choose|j: int| 0 <= j < n && peer_ids(self@.peers)[j] == id;
                assert(self.peers@[j].id == id);
            }
        }
        let peer = Peer { id, address, public_key };
        self.peers.push(peer);
        assert(peer_views(self.peers@) =~= peer_views(before).push(peer@));
        true
    }

    /// Validate that a block's proposer is the correct leader for its height.
    pub fn is_valid_proposer(&self, block: &Block) -> (r: bool)
        requires
            turn_fits(block.header.height, self@.round),
        ensures
            r == (block.header.proposer == self@.leader(block.header.height, self@.round)),
    {
        same_id(&block.header.proposer, &self.leader_for_height(block.header.height))
    }

    /// Get the node's public key (= node_id).
    pub fn node_id(&self) -> (r: Id)
        ensures
            r == self@.node_id,
    {
        self.node_id
    }

    /// Get the node's private key.
    pub fn private_key(&self) -> (r: &[u8; 32])
        ensures
            *r == self@.private_key,
    {
        &self.private_key
    }

    /// Number of peers (excluding self).
    pub fn peer_count(&self) -> (r: usize)
        ensures
            r == self@.peers.len(),
    {
        self.peers.len()
    }

    /// The peers.
    pub fn peers(&self) -> (r: &Vec<Peer>)
        ensures
            peer_views(r@) == self@.peers,
    {
        &self.peers
    }

    /// Sign a header as this node.
    pub fn sign_header(&self, header: &BlockHeader) -> (r: NodeSignature)
        ensures
            self@.is_own_signature(*header, r),
    {
        let header_bytes = to_bytes::<BlockHeader>(header);
        let signature = sign(header_bytes.as_slice(), &self.private_key);
        NodeSignature { node_id: self.node_id, signature: Signature(signature) }
    }

    /// Build a block on given transactions and sign it.
    pub fn build_block(&self, transactions: Vec<Transaction>, timestamp: i64, height: u64, prev_hash: crate::types::Hash, state_root: crate::types::Hash) -> (r: Block)
        ensures
            (ConsensusView { pending: models::<Transaction>(transactions@), ..self@ }).proposes(r@, timestamp, height, prev_hash, state_root),
    {
        let tx_hash = compute_tx_hash(transactions.as_slice());
        let n: usize = transactions.len();
        let wide: u64 = n as u64;
        assert(wide as u32 == wide % 0x1_0000_0000) by (bit_vector);
        let header = BlockHeader {
            height,
            prev_hash,
            timestamp,
            tx_count: #[verifier::truncate] (wide as u32),
            tx_hash,
            state_root,
            proposer: self.node_id,
        };
        let mut signatures: Vec<NodeSignature> = Vec::new();
        signatures.push(self.sign_header(&header));
        Block { header, transactions, signatures }
    }

    /// As `propose_block`, at a given time.
    pub fn propose_block_at(&mut self, timestamp: i64, height: u64, prev_hash: crate::types::Hash, state_root: crate::types::Hash) -> (r: Block)
        ensures
            old(self)@.proposes(r@, timestamp, height, prev_hash, state_root),
            final(self)@ == (ConsensusView { pending: Seq::empty(), ..old(self)@ }),
    {
        let transactions = self.drain_pending_txs();
        self.build_block(transactions, timestamp, height, prev_hash, state_root)
    }

    /// Create a block proposal (leader only), now.
    pub fn propose_block(&mut self, height: u64, prev_hash: crate::types::Hash, state_root: crate::types::Hash) -> (r: Block)
        ensures
            old(self)@.proposes(r@, r.header.timestamp, height, prev_hash, state_root),
            final(self)@ == (ConsensusView { pending: Seq::empty(), ..old(self)@ }),
    {
        self.propose_block_at(now_ms(), height, prev_hash, state_root)
    }

    /// Verify and sign a proposed block (follower).
    pub fn verify_and_sign(&self, block: &Block, expected_prev_hash: &crate::types::Hash) -> (r: Option<NodeSignature>)
        requires
            turn_fits(block.header.height, self@.round),
        ensures
            r is Some <==> self@.accepts(block@, *expected_prev_hash),
            r matches Some(sig) ==> self@.is_own_signature(block.header, sig),
    {
        // Verify proposer is the correct leader for this height
        if !self.is_valid_proposer(block) {
            return None;
        }

        // Verify previous hash
        if !same_id(&block.header.prev_hash, expected_prev_hash) {
            return None;
        }

        // Verify proposer's signature
        if block.signatures.len() == 0 {
            return None;
        }
        let first = block.signatures[0];
        if !same_id(&first.node_id, &block.header.proposer) {
            return None;
        }
        // We don't verify our own signature
        if !same_id(&first.node_id, &self.node_id) {
            match self.get_peer_key(&first.node_id) {
                Some(key) => {
                    let header_bytes = to_bytes::<BlockHeader>(&block.header);
                    if !verify(header_bytes.as_slice(), &first.signature.0, &key) {
                        return None;
                    }
                },
                None => return None, // unknown signer
            }
        }

        // Verify tx_hash matches transactions
        let computed_tx_hash = compute_tx_hash(block.transactions.as_slice());
        if !same_id(&computed_tx_hash, &block.header.tx_hash) {
            proof {
                if computed_tx_hash@ == block.header.tx_hash@ {
                    lemma_array_of_view(computed_tx_hash, block.header.tx_hash);
                }
            }
            return None;
        }

        // Sign the block
        Some(self.sign_header(&block.header))
    }

    /// Verify a node signature on a block header.
    pub fn verify_block_signature(&self, block: &Block, sig: &NodeSignature) -> (r: bool)
        ensures
            r == self@.is_valid(block.header, *sig),
    {
        // Get the signer's public key
        let pub_key: [u8; 32] = if same_id(&sig.node_id, &self.node_id) {
            self.node_id // own key
        } else {
            match self.get_peer_key(&sig.node_id) {
                Some(key) => key,
                None => return false, // unknown signer
            }
        };

        let header_bytes = to_bytes::<BlockHeader>(&block.header);
        verify(header_bytes.as_slice(), &sig.signature.0, &pub_key)
    }

    /// Check if block has enough UNIQUE VALID signatures to finalize.
    pub fn is_finalized(&self, block: &Block) -> (r: bool)
        ensures
            r == (self@.signers(block@).len() >= self@.min_signatures),
    {
        let ghost v = self@;
        let ghost valid = |s: NodeSignature| v.is_valid(block.header, s);
        let ghost name = |s: NodeSignature| s.node_id;
        let ghost sigs = block.signatures@;
        let mut unique_signers: Vec<Id> = Vec::new();
        let n: usize = block.signatures.len();
        let mut i: usize = 0;
        proof {
            reveal(Seq::filter);
            assert(sigs.take(0).filter(valid).map_values(name) =~= Seq::<Id>::empty());
            assert(unique_signers@ =~= Seq::<Id>::empty());
        }
        while i < n
            invariant
                n == block.signatures@.len(),
                sigs == block.signatures@,
                i <= n,
                v == self@,
                valid == (|s: NodeSignature| v.is_valid(block.header, s)),
                name == (|s: NodeSignature| s.node_id),
                unique_signers@.no_duplicates(),
                unique_signers@.to_set() == sigs.take(i as int).filter(valid).map_values(name).to_set(),
            decreases n - i,
        {
            let sig = block.signatures[i];
            let ghost before = sigs.take(i as int).filter(valid).map_values(name);
            let ghost after = sigs.take(i + 1).filter(valid).map_values(name);
            let ghost seen = unique_signers@;
            proof {
                reveal(Seq::filter);
                assert(sigs.take(i + 1).drop_last() =~= sigs.take(i as int));
                assert(sigs.take(i + 1).last() == sig);
            }
            if self.verify_block_signature(block, &sig) {
                proof {
                    assert(after =~= before.push(sig.node_id));
                    before.lemma_push_to_set_commute(sig.node_id);
                }
                // Skip duplicate signers
                if !contains_id(&unique_signers, &sig.node_id) {
                    unique_signers.push(sig.node_id);
                    proof {
                        seen.lemma_push_to_set_commute(sig.node_id);
                    }
                } else {
                    assert(seen.to_set().contains(sig.node_id));
                    assert(seen.to_set().insert(sig.node_id) =~= seen.to_set());
                }
            } else {
                assert(after =~= before);
            }
            i += 1;
        }
        proof {
            assert(sigs.take(n as int) =~= sigs);
            unique_signers@.unique_seq_to_set();
            assert(v.signers(block@) == sigs.filter(valid).map_values(name).to_set());
        }
        unique_signers.len() >= self.min_signatures
    }

    // ── Helpers ──

    pub fn all_node_ids(&self) -> (r: Vec<Id>)
        ensures
            r@ == self@.roster(),
    {
        let mut ids: Vec<Id> = Vec::new();
        let n: usize = self.peers.len();
        let mut i: usize = 0;
        while i < n
            invariant
                n == self.peers@.len(),
                i <= n,
                ids@ =~= peer_ids(peer_views(self.peers@)).take(i as int),
            decreases n - i,
        {
            ids.push(self.peers[i].id);
            i += 1;
        }
        ids.push(self.node_id);
        assert(ids@ =~= peer_ids(self@.peers).push(self@.node_id));
        sort_ids(&ids)
    }

    fn node_count(&self) -> (r: usize)
        ensures
            r == self@.roster().len(),
    {
        self.all_node_ids().len()
    }

    /// The key of a peer; nothing for this node and for strangers.
    fn get_peer_key(&self, node_id: &Id) -> (r: Option<[u8; 32]>)
        ensures
            r == if *node_id == self@.node_id {
                None
            } else {
                peer_key(self@.peers, *node_id)
            },
    {
        if same_id(node_id, &self.node_id) {
            return None; // self
        }
        let n: usize = self.peers.len();
        let mut i: usize = 0;
        let ghost all = self@.peers;
        assert(all.skip(0) =~= all);
        while i < n
            invariant
                n == self.peers@.len(),
                all == peer_views(self.peers@),
                all == self@.peers,
                *node_id != self@.node_id,
                i <= n,
                peer_key(all, *node_id) == peer_key(all.skip(i as int), *node_id),
            decreases n - i,
        {
            assert(all.skip(i as int).drop_first() =~= all.skip(i + 1));
            assert(all.skip(i as int)[0] == self.peers@[i as int]@);
            if same_id(&self.peers[i].id, node_id) {
                return Some(self.peers[i].public_key);
            }
            i += 1;
        }
        None
    }
}

} // verus!
