//! Records and messages as bytes, and texts.

use routinechain::bytes::{lex_order, Order};
use routinechain::message::{admits, frame, frame_length, frame_proposal, read_message, ConsensusMessage};
use routinechain::text::{parse_hex, push_decimal, to_hex};
use routinechain::types::{
    AnchorRecord, Block, BlockHeader, Dispute, DisputeDecision, DisputeReason, DisputeState, DisputeVote, Escrow, EscrowState, NodeSignature, Participant,
    ParticipantType, RCWBalance, SettlementData, SettlementRecord, Signature, Transaction, TxPayload,
};
use routinechain::wire::{from_bytes, to_bytes};

fn header() -> BlockHeader {
    BlockHeader {
        height: 258,
        prev_hash: [1; 32],
        timestamp: -2,
        tx_count: 7,
        tx_hash: [2; 32],
        state_root: [3; 32],
        proposer: [4; 32],
    }
}

fn transaction(payload: TxPayload) -> Transaction {
    Transaction { payload, sender: [5; 32], signature: Signature([6; 64]), timestamp: 1000, nonce: 77 }
}

#[test]
fn test_headers_are_laid_out_as_bincode_does() {
    let h = header();
    let outside = bincode::serialize(&(h.height, h.prev_hash, h.timestamp, h.tx_count, h.tx_hash, h.state_root, h.proposer)).unwrap();
    assert_eq!(to_bytes(&h), outside);
    assert_eq!(outside.len(), 8 + 32 + 8 + 4 + 32 + 32 + 32);
    let back: BlockHeader = from_bytes(&outside).unwrap();
    assert_eq!(back.timestamp, -2);
    assert_eq!(back.proposer, [4; 32]);
}

#[test]
fn test_records_are_laid_out_as_bincode_does() {
    let p = Participant {
        id: [9; 32],
        p_type: 54,
        metadata: "naïve".to_string(),
        total_tx: 1,
        success_tx: 2,
        dispute_count: 3,
        dispute_won: 4,
        rating_sum: 5,
        rating_count: 6,
        total_volume: 7,
        total_settled: 8,
        registered_at: i64::MIN,
        last_activity_at: i64::MAX,
        is_active: true,
    };
    let numbers = (p.total_tx, p.success_tx, p.dispute_count, p.dispute_won, p.rating_sum, p.rating_count, p.total_volume, p.total_settled);
    let outside = bincode::serialize(&(p.id, p.p_type, &p.metadata, numbers, p.registered_at, p.last_activity_at, p.is_active)).unwrap();
    assert_eq!(to_bytes(&p), outside);
    let back: Participant = from_bytes(&outside).unwrap();
    assert_eq!(back.metadata, "naïve");
    assert_eq!(back.registered_at, i64::MIN);

    let b = RCWBalance { owner: [1; 32], earned: u64::MAX, purchased: 3 };
    assert_eq!(to_bytes(&b), bincode::serialize(&(b.owner, b.earned, b.purchased)).unwrap());

    let e = Escrow {
        id: [1; 32],
        buyer: [2; 32],
        seller: [3; 32],
        amount: 50,
        state: EscrowState::Disputed,
        created_at: 1,
        expires_at: 2,
        evidence_hash: Some([4; 32]),
        dispute_id: None,
    };
    let outside = bincode::serialize(&(e.id, e.buyer, e.seller, e.amount, 4u32, e.created_at, e.expires_at, e.evidence_hash, e.dispute_id)).unwrap();
    assert_eq!(to_bytes(&e), outside);
    let back: Escrow = from_bytes(&outside).unwrap();
    assert_eq!(back.state, EscrowState::Disputed);
    assert_eq!(back.evidence_hash, Some([4; 32]));

    let d = Dispute {
        id: [1; 32],
        escrow_id: [2; 32],
        raised_by: [3; 32],
        reason: 99,
        evidence_hashes: vec![[4; 32], [5; 32]],
        votes: vec![DisputeVote { voter: [6; 32], decision: 2, voted_at: 8 }],
        state: DisputeState::Resolved,
        resolution: Some(2),
        raised_at: 5,
        resolved_at: Some(-6),
    };
    let outside = bincode::serialize(&(
        d.id,
        d.escrow_id,
        d.raised_by,
        d.reason,
        &d.evidence_hashes,
        vec![([6u8; 32], 2u8, 8i64)],
        3u32,
        d.resolution,
        d.raised_at,
        d.resolved_at,
    ))
    .unwrap();
    assert_eq!(to_bytes(&d), outside);
    let back: Dispute = from_bytes(&outside).unwrap();
    assert_eq!(back.evidence_hashes.len(), 2);
    assert_eq!(back.votes[0].voter, [6; 32]);
    assert_eq!(back.resolved_at, Some(-6));

    let s = SettlementRecord {
        record_id: [1; 32],
        participant_id: [2; 32],
        gross_amount: 3,
        platform_fee: 4,
        net_amount: 5,
        currency: *b"KRW\0",
        settled_at: 6,
        recorded_at: 7,
    };
    let outside = bincode::serialize(&(s.record_id, s.participant_id, s.gross_amount, s.platform_fee, s.net_amount, s.currency, s.settled_at, s.recorded_at)).unwrap();
    assert_eq!(to_bytes(&s), outside);

    let a = AnchorRecord { batch_id: [1; 32], merkle_root: [2; 32], entry_count: 3, from_entry_id: 4, to_entry_id: 5, anchored_at: 6 };
    let outside = bincode::serialize(&(a.batch_id, a.merkle_root, a.entry_count, a.from_entry_id, a.to_entry_id, a.anchored_at)).unwrap();
    assert_eq!(to_bytes(&a), outside);
}

#[test]
fn test_payloads_are_laid_out_as_bincode_does() {
    let id = [1u8; 32];
    let other = [2u8; 32];
    let cases: Vec<(TxPayload, Vec<u8>)> = vec![
        (
            TxPayload::RegisterParticipant { id, p_type: ParticipantType::Arbiter, metadata: "m".to_string() },
            bincode::serialize(&(0u32, id, 14u32, "m")).unwrap(),
        ),
        (TxPayload::UpdateParticipant { id, metadata: "".to_string() }, bincode::serialize(&(1u32, id, "")).unwrap()),
        (TxPayload::DeactivateParticipant { id }, bincode::serialize(&(2u32, id)).unwrap()),
        (
            TxPayload::RecordSettlement {
                participant_id: id,
                record: SettlementData { record_id: other, gross_amount: 1, platform_fee: 2, net_amount: 3, currency: *b"USD\0", settled_at: 4 },
            },
            bincode::serialize(&(3u32, id, other, 1u64, 2u64, 3u64, *b"USD\0", 4i64)).unwrap(),
        ),
        (TxPayload::RecordRating { participant_id: id, rating: 500, success: false }, bincode::serialize(&(4u32, id, 500u16, false)).unwrap()),
        (
            TxPayload::CreateEscrow { escrow_id: other, buyer: id, seller: other, amount: 9, expires_at: -1 },
            bincode::serialize(&(5u32, other, id, other, 9u64, -1i64)).unwrap(),
        ),
        (TxPayload::ReleaseEscrow { escrow_id: id, evidence_hash: other }, bincode::serialize(&(6u32, id, other)).unwrap()),
        (TxPayload::RefundEscrow { escrow_id: id }, bincode::serialize(&(7u32, id)).unwrap()),
        (
            TxPayload::RaiseDispute { dispute_id: id, escrow_id: other, reason: DisputeReason::Other, evidence_hash: id },
            bincode::serialize(&(8u32, id, other, 4u32, id)).unwrap(),
        ),
        (TxPayload::SubmitEvidence { dispute_id: id, evidence_hash: other }, bincode::serialize(&(9u32, id, other)).unwrap()),
        (TxPayload::VoteDispute { dispute_id: id, decision: DisputeDecision::Split }, bincode::serialize(&(10u32, id, 2u32)).unwrap()),
        (TxPayload::TransferRCW { to: id, amount: 8, memo: "x".to_string() }, bincode::serialize(&(11u32, id, 8u64, "x")).unwrap()),
        (TxPayload::SpendRCW { amount: 8, purpose: "y".to_string() }, bincode::serialize(&(12u32, 8u64, "y")).unwrap()),
        (
            TxPayload::AnchorMerkleRoot { batch_id: id, merkle_root: other, entry_count: 1, from_entry_id: 2, to_entry_id: 3 },
            bincode::serialize(&(13u32, id, other, 1u64, 2u64, 3u64)).unwrap(),
        ),
    ];
    for (payload, outside) in &cases {
        assert_eq!(&to_bytes(payload), outside);
        let back: TxPayload = from_bytes(outside).unwrap();
        assert_eq!(&to_bytes(&back), outside);
        // One byte less is no payload
        assert!(from_bytes::<TxPayload>(&outside[..outside.len() - 1]).is_err());
    }
}

#[test]
fn test_transactions_and_blocks_are_laid_out_as_bincode_does() {
    let tx = transaction(TxPayload::RefundEscrow { escrow_id: [1; 32] });
    let tx_bytes = bincode::serialize(&(7u32, [1u8; 32], [5u8; 32], vec![6u8; 64], 1000i64, 77u64)).unwrap();
    assert_eq!(to_bytes(&tx), tx_bytes);

    let block = Block { header: header(), transactions: vec![tx], signatures: vec![NodeSignature { node_id: [8; 32], signature: Signature([9; 64]) }] };
    let mut outside = to_bytes(&header());
    outside.extend(bincode::serialize(&1u64).unwrap());
    outside.extend(tx_bytes);
    outside.extend(bincode::serialize(&(1u64, [8u8; 32], vec![9u8; 64])).unwrap());
    assert_eq!(to_bytes(&block), outside);
    // What follows a value is ignored
    outside.push(0);
    let back: Block = from_bytes(&outside).unwrap();
    assert_eq!(back.transactions[0].nonce, 77);
    assert_eq!(back.signatures[0].signature, Signature([9; 64]));
}

#[test]
fn test_what_is_no_value_is_not_read() {
    let eof = bincode::deserialize::<u16>(&[1]).unwrap_err().to_string();
    assert_eq!(from_bytes::<u16>(&[1]), Err(eof.clone()));
    assert_eq!(from_bytes::<u16>(&[1, 2]), Ok(513));
    assert_eq!(from_bytes::<[u8; 4]>(&[1, 2, 3]), Err(eof.clone()));
    assert_eq!(from_bytes::<[u8; 32]>(&[]), Err(eof.clone()));
    // A flag is 0 or 1, an option's tag too
    assert_eq!(from_bytes::<bool>(&[1]), Ok(true));
    assert_eq!(from_bytes::<bool>(&[2]), Err("invalid u8 while decoding bool, expected 0 or 1, found 2".to_string()));
    assert_eq!(from_bytes::<bool>(&[]), Err(eof.clone()));
    assert_eq!(from_bytes::<Option<u8>>(&[255, 0]), Err("tag for enum is not valid, found 255".to_string()));
    assert_eq!(from_bytes::<Option<u8>>(&[1, 7]), Ok(Some(7)));
    assert_eq!(from_bytes::<Option<u8>>(&[1]), Err(eof.clone()));
    // A length that the input does not hold
    assert_eq!(from_bytes::<Vec<u8>>(&[2, 0, 0, 0, 0, 0, 0, 0, 5]), Err(eof.clone()));
    assert_eq!(from_bytes::<Vec<u8>>(&[1, 0, 0, 0, 0, 0, 0, 0, 5]), Ok(vec![5]));
    assert_eq!(from_bytes::<Vec<u8>>(&[255; 16]), Err(eof.clone()));
    // What is wrong with the first value that is wrong
    let flags = [255, 255, 255, 255, 255, 255, 255, 255, 1, 0, 3];
    assert_eq!(from_bytes::<Vec<bool>>(&flags), Err(bincode::deserialize::<Vec<bool>>(&flags).unwrap_err().to_string()));
    // Text that is no UTF-8, and text cut short
    for text in [vec![1, 0, 0, 0, 0, 0, 0, 0, 0xFF], vec![9, 0, 0, 0, 0, 0, 0, 0, 65], vec![1]] {
        assert_eq!(from_bytes::<String>(&text), Err(bincode::deserialize::<String>(&text).unwrap_err().to_string()));
    }
    // A signature has 64 bytes
    let mut short = vec![63, 0, 0, 0, 0, 0, 0, 0];
    short.extend([1u8; 64]);
    assert_eq!(from_bytes::<Signature>(&short), Err("Signature must be 64 bytes".to_string()));
    short[0] = 64;
    assert_eq!(from_bytes::<Signature>(&short), Ok(Signature([1; 64])));
    short[0] = 65;
    assert_eq!(from_bytes::<Signature>(&short), Err(eof));
    // A form that there is not
    let expected = "invalid value: integer `14`, expected variant index 0 <= i < 14".to_string();
    assert_eq!(from_bytes::<TxPayload>(&[14, 0, 0, 0]).map(|_| ()), Err(expected));
    let expected = "invalid value: integer `5`, expected variant index 0 <= i < 5".to_string();
    assert_eq!(from_bytes::<EscrowState>(&[5, 0, 0, 0]), Err(expected));
}

#[test]
fn test_records_that_cannot_be_read_are_refused_as_bincode_does() {
    // The same fields, read by bincode
    type Fields = ([u8; 32], u8, String, (u64, u64, u64, u64, u64, u64, u64, u64), i64, i64, bool);
    let whole = to_bytes(&Participant { metadata: "text".to_string(), ..Default::default() });
    let mut inputs: Vec<Vec<u8>> = (0..whole.len()).map(|n| whole[..n].to_vec()).collect();
    for (at, byte) in [(33, 250), (41, 0xFF), (whole.len() - 1, 7)] {
        let mut bad = whole.clone();
        bad[at] = byte;
        inputs.push(bad);
    }
    for input in inputs {
        let outside = bincode::deserialize::<Fields>(&input).unwrap_err().to_string();
        assert_eq!(from_bytes::<Participant>(&input).map(|_| ()), Err(outside));
    }
}

#[test]
fn test_frames() {
    let msg = ConsensusMessage::ViewChange { height: 3, round: 2, node_id: [7; 32] };
    let bytes = frame(&msg);
    let body = bincode::serialize(&(4u32, 3u64, 2u32, [7u8; 32])).unwrap();
    assert_eq!(&bytes[..4], &(body.len() as u32).to_be_bytes());
    assert_eq!(&bytes[4..], &body[..]);
    assert_eq!(frame_length(&[bytes[0], bytes[1], bytes[2], bytes[3]]), Some(body.len()));
    let (from, back) = read_message(&bytes[4..]).unwrap();
    assert_eq!(from, [7; 32]);
    assert!(matches!(back, ConsensusMessage::ViewChange { height: 3, round: 2, node_id } if node_id == [7; 32]));

    // 16 MiB is the limit
    assert_eq!(frame_length(&[1, 0, 0, 0]), Some(16 * 1024 * 1024));
    assert_eq!(frame_length(&[1, 0, 0, 1]), None);
    assert!(read_message(&[9, 0, 0, 0]).is_none());
    assert!(read_message(&[]).is_none());
}

#[test]
fn test_senders_of_messages() {
    let block = Block::genesis(1, [3; 32]);
    assert_eq!(frame_proposal(&block), frame(&ConsensusMessage::Propose(block.clone())));
    let sig = NodeSignature { node_id: [4; 32], signature: Signature::default() };
    let tx = transaction(TxPayload::RefundEscrow { escrow_id: [1; 32] });
    let cases = vec![
        (ConsensusMessage::Propose(block), [3u8; 32]),
        (ConsensusMessage::Sign(1, sig), [4; 32]),
        (ConsensusMessage::RequestTxs, [0; 32]),
        (ConsensusMessage::SubmitTx(tx), [5; 32]),
        (ConsensusMessage::Handshake { node_id: [6; 32], public_key: [7; 32], listen_addr: "a:1".to_string() }, [6; 32]),
    ];
    for (msg, sender) in cases {
        assert_eq!(msg.sender(), sender);
        let bytes = frame(&msg);
        assert_eq!(read_message(&bytes[4..]).unwrap().0, sender);
    }
}

#[test]
fn test_connections_are_limited() {
    assert!(admits(0));
    assert!(admits(999));
    assert!(!admits(1000));
}

#[test]
fn test_hexadecimal() {
    assert_eq!(to_hex(&[0, 1, 15, 16, 255]), "00010f10ff");
    assert_eq!(to_hex(&[0xAB]), hex::encode([0xABu8]));
    assert_eq!(parse_hex::<2>("aBcD"), Some([0xAB, 0xCD]));
    assert_eq!(parse_hex::<2>("abcde"), None);
    assert_eq!(parse_hex::<2>("abcg"), None);
    assert_eq!(parse_hex::<2>("ab"), None);
    assert_eq!(parse_hex::<0>(""), Some([]));
}

#[test]
fn test_decimal() {
    let mut text = "n = ".to_string();
    push_decimal(&mut text, 0);
    assert_eq!(text, "n = 0");
    for n in [7u64, 10, 99, 100, 12345678901234567890, u64::MAX] {
        let mut text = String::new();
        push_decimal(&mut text, n);
        assert_eq!(text, n.to_string());
    }
}

#[test]
fn test_order_of_byte_strings() {
    assert_eq!(lex_order(b"a", b"b"), Order::Before);
    assert_eq!(lex_order(b"a", b"ab"), Order::Before);
    assert_eq!(lex_order(b"b", b"ab"), Order::After);
    assert_eq!(lex_order(b"", b""), Order::Same);
    assert_eq!(lex_order(&[1, 255], &[2]), Order::Before);
}

#[test]
fn test_codes() {
    let types = [
        (ParticipantType::Seller, 1),
        (ParticipantType::Buyer, 2),
        (ParticipantType::Author, 10),
        (ParticipantType::ContentWork, 11),
        (ParticipantType::Franchisee, 20),
        (ParticipantType::Investor, 21),
        (ParticipantType::Host, 22),
        (ParticipantType::Influencer, 30),
        (ParticipantType::Brand, 31),
        (ParticipantType::Agency, 32),
        (ParticipantType::ServiceProvider, 40),
        (ParticipantType::BuyerAgent, 50),
        (ParticipantType::SellerAgent, 51),
        (ParticipantType::MatchingAgent, 52),
        (ParticipantType::Arbiter, 54),
    ];
    for (t, code) in types {
        assert_eq!(t.code(), code);
    }
    assert_eq!(DisputeReason::NotDelivered.code(), 0);
    assert_eq!(DisputeReason::Unauthorized.code(), 3);
    assert_eq!(DisputeReason::Other.code(), 99);
    assert_eq!(DisputeDecision::FavorBuyer.code(), 0);
    assert_eq!(DisputeDecision::FavorSeller.code(), 1);
    assert_eq!(DisputeDecision::Split.code(), 2);
}
