//! End-to-end scenarios: proposal voting and activation, expiry, deposits,
//! withdrawal approval and rejection, BMM commitments, reorg restoration,
//! replay determinism, and idempotent sync.

use bip300301_enforcer::codec::{encode_coinbase_message, encode_m8_bmm_request,
    encode_op_drivechain};
use bip300301_enforcer::digest::m6_to_id;
use bip300301_enforcer::engine::ConnectBlockError;
use bip300301_enforcer::sync::SyncAction;
use bip300301_enforcer::types::{
    Block, CoinbaseMessage, Event, Hash256, Header, M4AckBundles, M8BmmRequest, OutPoint,
    Transaction, TxOut, Work,
};
use bip300301_enforcer::types::WithdrawalBundleEventKind;
use bip300301_enforcer::validator::Validator;

fn h(seed: u64) -> Hash256 {
    Hash256 { w0: seed, w1: seed ^ 0xABCD, w2: seed.wrapping_mul(31), w3: 0 }
}

fn block_hash_for_height(height: u32) -> Hash256 {
    h(0x1000_0000 + height as u64)
}

fn hash_from_le_bytes(bytes: &[u8]) -> Hash256 {
    let mut w = [0u64; 4];
    for k in 0..4 {
        let mut limb = 0u64;
        for b in 0..8 {
            limb |= (bytes[8 * k + b] as u64) << (8 * b);
        }
        w[k] = limb;
    }
    Hash256 { w0: w[0], w1: w[1], w2: w[2], w3: w[3] }
}

fn sha256d_reference(data: &[u8]) -> Hash256 {
    let digest = <bitcoin::hashes::sha256d::Hash as bitcoin::hashes::Hash>::to_byte_array(
        <bitcoin::hashes::sha256d::Hash as bitcoin::hashes::Hash>::hash(data),
    );
    hash_from_le_bytes(&digest)
}

fn coinbase(messages: &[CoinbaseMessage], height: u32) -> Transaction {
    let outputs = messages
        .iter()
        .map(|m| TxOut { value: 0, script_pubkey: encode_coinbase_message(m) })
        .collect();
    Transaction {
        txid: h(0x2000_0000 + height as u64),
        raw: vec![],
        inputs: vec![],
        outputs,
    }
}

/// A block at `height` whose parent is the block at `height - 1`.
fn block_at(height: u32, messages: Vec<CoinbaseMessage>, txs: Vec<Transaction>) -> Block {
    let mut txdata = vec![coinbase(&messages, height)];
    txdata.extend(txs);
    Block {
        header: Header {
            block_hash: block_hash_for_height(height),
            prev_block_hash: if height == 0 {
                h(0)
            } else {
                block_hash_for_height(height - 1)
            },
            work: Work { w0: 1, w1: 0, w2: 0, w3: 0 },
        },
        txdata,
    }
}

fn connect(v: &mut Validator, height: u32, messages: Vec<CoinbaseMessage>, txs: Vec<Transaction>) {
    let b = block_at(height, messages, txs);
    v.connect_block(&b, height).expect("block should connect");
}

fn m1_hello() -> CoinbaseMessage {
    CoinbaseMessage::M1ProposeSidechain { sidechain_number: 3, data: b"hello".to_vec() }
}

fn m2_hello() -> CoinbaseMessage {
    CoinbaseMessage::M2AckSidechain {
        sidechain_number: 3,
        data_hash: sha256d_reference(b"hello"),
    }
}

/// Drives a fresh enforcer to the point where slot 3 is activated: a
/// proposal at block 100, acked over blocks 101 to 106. Parent links are
/// contiguous from height 100 on.
fn activate_slot_3() -> Validator {
    let mut v = Validator::new();
    connect(&mut v, 100, vec![m1_hello()], vec![]);
    for height in 101..=106 {
        connect(&mut v, height, vec![m2_hello()], vec![]);
    }
    v
}

#[test]
fn propose_and_activate_unused_slot() {
    let mut v = Validator::new();
    connect(&mut v, 100, vec![m1_hello()], vec![]);
    assert_eq!(v.get_sidechain_proposals().len(), 1);
    // Five acks are not enough: the vote count must exceed the threshold.
    for height in 101..=105 {
        connect(&mut v, height, vec![m2_hello()], vec![]);
        assert!(v.get_sidechains().is_empty());
    }
    connect(&mut v, 106, vec![m2_hello()], vec![]);
    let sidechains = v.get_sidechains();
    assert_eq!(sidechains.len(), 1);
    assert_eq!(sidechains[0].sidechain_number, 3);
    assert_eq!(sidechains[0].data, b"hello".to_vec());
    assert_eq!(sidechains[0].vote_count, 6);
    assert_eq!(sidechains[0].proposal_height, 100);
    assert_eq!(sidechains[0].activation_height, 106);
    // The proposal moved out of the proposal table.
    assert!(v.get_sidechain_proposals().is_empty());
}

#[test]
fn unacked_proposal_expires_after_its_age_bound() {
    let mut v = Validator::new();
    connect(&mut v, 100, vec![m1_hello()], vec![]);
    for height in 101..=110 {
        connect(&mut v, height, vec![], vec![]);
        assert_eq!(v.get_sidechain_proposals().len(), 1, "alive at height {height}");
    }
    connect(&mut v, 111, vec![], vec![]);
    assert!(v.get_sidechain_proposals().is_empty());
    assert!(v.get_sidechains().is_empty());
}

fn deposit_tx() -> Transaction {
    Transaction {
        txid: h(0x3000_0001),
        raw: b"deposit-tx-bytes".to_vec(),
        inputs: vec![],
        outputs: vec![
            TxOut { value: 100_000, script_pubkey: encode_op_drivechain(3) },
            TxOut {
                value: 0,
                script_pubkey: {
                    let mut s = vec![0x6a];
                    s.extend_from_slice(b"sc_addr_A");
                    s
                },
            },
        ],
    }
}

/// Slot 3 activated and 100 000 sats deposited at block 107.
fn deposited_slot_3() -> (Validator, Transaction) {
    let mut v = activate_slot_3();
    let t = deposit_tx();
    connect(&mut v, 107, vec![], vec![t.clone()]);
    (v, t)
}

#[test]
fn first_deposit_records_treasury_and_emits_deposit() {
    let (v, t) = deposited_slot_3();
    // Treasury record at (slot 3, sequence 0).
    let utxo = v.chain.try_get_treasury_utxo(3, 0).expect("treasury record").clone();
    assert_eq!(utxo.total_value, 100_000);
    assert_eq!(utxo.previous_total_value, 0);
    assert_eq!(utxo.outpoint, OutPoint { txid: t.txid, vout: 0 });
    assert_eq!(utxo.address, Some(b"sc_addr_A".to_vec()));
    // The Ctip is the transaction's first output.
    let ctip = v.get_ctip(3).expect("ctip");
    assert_eq!(ctip.outpoint, OutPoint { txid: t.txid, vout: 0 });
    assert_eq!(ctip.value, 100_000);
    assert_eq!(v.get_ctip_sequence_number(3), Some(0));
    // The deposit event names the slot, sequence, value and script.
    let info = v.get_block_info(&block_hash_for_height(107)).expect("block info");
    assert_eq!(info.deposits.len(), 1);
    let d = &info.deposits[0];
    assert_eq!(d.sidechain_id, 3);
    assert_eq!(d.sequence_number, 0);
    assert_eq!(d.output.value, 100_000);
    assert_eq!(d.output.script_pubkey, b"sc_addr_A".to_vec());
}

fn withdrawal_tx(prev_ctip: OutPoint) -> Transaction {
    Transaction {
        txid: h(0x3000_0002),
        raw: b"withdrawal-bundle-tx-bytes".to_vec(),
        inputs: vec![prev_ctip],
        outputs: vec![TxOut { value: 40_000, script_pubkey: encode_op_drivechain(3) }],
    }
}

/// Slot 3 deposited, a bundle proposed at block 108 and upvoted once per
/// block from 109 on. Returns the enforcer, the withdrawing transaction,
/// and the height of the next free block.
fn voted_withdrawal_setup(upvotes: u32) -> (Validator, Transaction, u32) {
    let (mut v, t) = deposited_slot_3();
    let m6 = withdrawal_tx(OutPoint { txid: t.txid, vout: 0 });
    let m6id = m6_to_id(&m6.raw, 100_000);
    connect(
        &mut v,
        108,
        vec![CoinbaseMessage::M3ProposeBundle { sidechain_number: 3, bundle_txid: m6id }],
        vec![],
    );
    for k in 0..upvotes {
        // Index 0 of each slot's pending list; slots without bundles ignore it.
        connect(
            &mut v,
            109 + k,
            vec![CoinbaseMessage::M4AckBundles(M4AckBundles::OneByte {
                upvotes: vec![0, 0, 0, 0],
            })],
            vec![],
        );
    }
    (v, m6, 109 + upvotes)
}

#[test]
fn approved_withdrawal_succeeds() {
    let (mut v, m6, next) = voted_withdrawal_setup(6);
    let pending = v.chain.try_get_pending(3).expect("pending list").clone();
    assert_eq!(pending.len(), 1);
    assert_eq!(pending[0].vote_count, 6);
    let m6id = m6_to_id(&m6.raw, 100_000);
    connect(&mut v, next, vec![], vec![m6.clone()]);
    // The bundle was consumed and the withdrawal succeeded.
    assert!(v.chain.try_get_pending(3).expect("pending list").is_empty());
    let info = v.get_block_info(&block_hash_for_height(next)).expect("block info");
    assert_eq!(info.withdrawal_bundle_events.len(), 1);
    assert_eq!(info.withdrawal_bundle_events[0].m6id, m6id);
    let ctip = v.get_ctip(3).expect("ctip");
    assert_eq!(ctip.value, 40_000);
    assert_eq!(ctip.outpoint, OutPoint { txid: m6.txid, vout: 0 });
    let utxo = v.chain.try_get_treasury_utxo(3, 1).expect("treasury record");
    assert_eq!(utxo.total_value, 40_000);
    assert_eq!(utxo.previous_total_value, 100_000);
    assert_eq!(v.get_ctip_sequence_number(3), Some(1));
}

#[test]
fn underfunded_withdrawal_is_rejected() {
    let (mut v, m6, next) = voted_withdrawal_setup(3);
    let b = block_at(next, vec![], vec![m6]);
    assert_eq!(v.connect_block(&b, next), Err(ConnectBlockError::InvalidM6));
    // The block was not applied: the treasury is untouched.
    assert_eq!(v.get_ctip(3).expect("ctip").value, 100_000);
    assert!(v.get_block_info(&block_hash_for_height(next)).is_err());
    assert_eq!(v.chain.try_get_pending(3).expect("pending list").len(), 1);
}

#[test]
fn treasury_tx_must_spend_the_ctip() {
    let (mut v, _t) = deposited_slot_3();
    // A second treasury transaction that spends nothing is refused.
    let rogue = Transaction {
        txid: h(0x3000_0009),
        raw: b"rogue".to_vec(),
        inputs: vec![],
        outputs: vec![TxOut { value: 200_000, script_pubkey: encode_op_drivechain(3) }],
    };
    let b = block_at(108, vec![], vec![rogue]);
    assert_eq!(
        v.connect_block(&b, 108),
        Err(ConnectBlockError::OldCtipUnspent { sidechain_number: 3 })
    );
}

#[test]
fn bundle_for_inactive_slot_is_refused() {
    let mut v = Validator::new();
    let b = block_at(
        50,
        vec![CoinbaseMessage::M3ProposeBundle { sidechain_number: 9, bundle_txid: h(1) }],
        vec![],
    );
    assert_eq!(
        v.connect_block(&b, 50),
        Err(ConnectBlockError::InactiveSidechain { sidechain_number: 9 })
    );
}

#[test]
fn unimplemented_ack_forms_refuse_the_block() {
    let mut v = Validator::new();
    let b = block_at(
        50,
        vec![CoinbaseMessage::M4AckBundles(M4AckBundles::RepeatPrevious)],
        vec![],
    );
    assert_eq!(v.connect_block(&b, 50), Err(ConnectBlockError::UnsupportedM4AckForm));
}

#[test]
fn alarm_votes_bundles_down() {
    let (mut v, _m6, next) = voted_withdrawal_setup(2);
    assert_eq!(v.chain.try_get_pending(3).expect("pending")[0].vote_count, 2);
    connect(
        &mut v,
        next,
        vec![CoinbaseMessage::M4AckBundles(M4AckBundles::TwoBytes {
            upvotes: vec![0xFFFF, 0xFFFF, 0xFFFF, 0xFFFE],
        })],
        vec![],
    );
    assert_eq!(v.chain.try_get_pending(3).expect("pending")[0].vote_count, 1);
    // An abstain leaves the count alone.
    connect(
        &mut v,
        next + 1,
        vec![CoinbaseMessage::M4AckBundles(M4AckBundles::TwoBytes {
            upvotes: vec![0xFFFF, 0xFFFF, 0xFFFF, 0xFFFF],
        })],
        vec![],
    );
    assert_eq!(v.chain.try_get_pending(3).expect("pending")[0].vote_count, 1);
}

#[test]
fn overvoted_bundle_fails_out() {
    // The eleventh upvote puts the count past the age bound; that block's
    // own expiry sweep removes the bundle and reports it as failed.
    let (v, _m6, next) = voted_withdrawal_setup(11);
    assert!(v.chain.try_get_pending(3).expect("pending").is_empty());
    let info = v.get_block_info(&block_hash_for_height(next - 1)).expect("block info");
    assert_eq!(info.withdrawal_bundle_events.len(), 1);
    assert!(matches!(
        info.withdrawal_bundle_events[0].kind,
        WithdrawalBundleEventKind::Failed
    ));
}

#[test]
fn bmm_commitment_gates_requests() {
    let mut v = activate_slot_3();
    let h_star = h(0xABC);
    let prev = block_hash_for_height(106);
    let good = Transaction {
        txid: h(0x4000_0001),
        raw: vec![],
        inputs: vec![],
        outputs: vec![TxOut {
            value: 0,
            script_pubkey: encode_m8_bmm_request(&M8BmmRequest {
                sidechain_number: 3,
                sidechain_block_hash: h_star,
                prev_mainchain_block_hash: prev,
            }),
        }],
    };
    let m7 = CoinbaseMessage::M7BmmAccept { sidechain_number: 3, sidechain_block_hash: h_star };
    connect(&mut v, 107, vec![m7.clone()], vec![good]);
    let commitments = v
        .try_get_bmm_commitments(&block_hash_for_height(107))
        .expect("connected block");
    assert_eq!(commitments, vec![(3, h_star)]);

    // A request for an uncommitted hash is refused.
    let mut v2 = activate_slot_3();
    let wrong_hash = Transaction {
        txid: h(0x4000_0002),
        raw: vec![],
        inputs: vec![],
        outputs: vec![TxOut {
            value: 0,
            script_pubkey: encode_m8_bmm_request(&M8BmmRequest {
                sidechain_number: 3,
                sidechain_block_hash: h(0xDEF),
                prev_mainchain_block_hash: prev,
            }),
        }],
    };
    let b = block_at(107, vec![m7.clone()], vec![wrong_hash]);
    assert_eq!(v2.connect_block(&b, 107), Err(ConnectBlockError::NotAcceptedByMiners));

    // A request naming the wrong previous block is refused.
    let mut v3 = activate_slot_3();
    let expired = Transaction {
        txid: h(0x4000_0003),
        raw: vec![],
        inputs: vec![],
        outputs: vec![TxOut {
            value: 0,
            script_pubkey: encode_m8_bmm_request(&M8BmmRequest {
                sidechain_number: 3,
                sidechain_block_hash: h_star,
                prev_mainchain_block_hash: h(0x777),
            }),
        }],
    };
    let b = block_at(107, vec![m7.clone()], vec![expired]);
    assert_eq!(v3.connect_block(&b, 107), Err(ConnectBlockError::BmmRequestExpired));

    // Two commitments for one slot refuse the block.
    let mut v4 = activate_slot_3();
    let b = block_at(107, vec![m7.clone(), m7], vec![]);
    assert_eq!(
        v4.connect_block(&b, 107),
        Err(ConnectBlockError::MultipleBmmBlocks { sidechain_number: 3 })
    );
}

#[test]
fn disconnect_restores_the_store() {
    let (mut v, _t) = deposited_slot_3();
    let tip_before = v.get_mainchain_tip();
    let ctip_before = v.get_ctip(3);
    let proposals_before = v.get_sidechain_proposals().len();
    let events_before = v.events.len();

    let m1_other = CoinbaseMessage::M1ProposeSidechain {
        sidechain_number: 5,
        data: b"other".to_vec(),
    };
    connect(&mut v, 108, vec![m1_other], vec![]);
    assert_eq!(v.get_sidechain_proposals().len(), proposals_before + 1);
    assert_ne!(v.get_mainchain_tip(), tip_before);

    v.disconnect_block(block_hash_for_height(108)).expect("disconnect the tip");
    assert_eq!(v.get_mainchain_tip(), tip_before);
    assert_eq!(v.get_ctip(3), ctip_before);
    assert_eq!(v.get_sidechain_proposals().len(), proposals_before);
    assert!(v.get_block_info(&block_hash_for_height(108)).is_err());
    assert!(v.get_header_info(&block_hash_for_height(108)).is_err());
    // One connect event and one disconnect event were appended.
    assert_eq!(v.events.len(), events_before + 2);
    assert!(matches!(v.events[v.events.len() - 1], Event::DisconnectBlock { .. }));
    // Only the newest connected block may disconnect.
    let mut v2 = activate_slot_3();
    assert!(v2.disconnect_block(block_hash_for_height(100)).is_err());
}

#[test]
fn replay_reaches_the_same_store() {
    let build = || {
        let (v, _t) = deposited_slot_3();
        v
    };
    let v1 = build();
    let v2 = build();
    assert_eq!(v1.get_mainchain_tip(), v2.get_mainchain_tip());
    assert_eq!(v1.get_ctip(3), v2.get_ctip(3));
    assert_eq!(v1.get_sidechains().len(), v2.get_sidechains().len());
    assert_eq!(v1.events.len(), v2.events.len());
    let i1 = v1.get_block_info(&block_hash_for_height(107)).expect("info");
    let i2 = v2.get_block_info(&block_hash_for_height(107)).expect("info");
    assert_eq!(i1.deposits.len(), i2.deposits.len());
    assert_eq!(i1.coinbase_txid, i2.coinbase_txid);
}

#[test]
fn sync_plan_is_idempotent() {
    let mut v = Validator::new();
    let genesis = block_at(0, vec![], vec![]);
    // The header is unknown: the plan asks for it.
    assert_eq!(
        v.sync_step(genesis.header.block_hash),
        SyncAction::FetchHeader(genesis.header.block_hash)
    );
    v.put_header(genesis.header, 0);
    // The header is stored but the block is not connected: the plan asks
    // for the block.
    assert_eq!(
        v.sync_step(genesis.header.block_hash),
        SyncAction::FetchBlock(genesis.header.block_hash)
    );
    v.connect_block(&genesis, 0).expect("connect genesis");
    // Synced: a second pass plans nothing, and nothing changes.
    let events_before = v.events.len();
    assert_eq!(v.sync_step(genesis.header.block_hash), SyncAction::AlreadySynced);
    assert_eq!(v.sync_step(genesis.header.block_hash), SyncAction::AlreadySynced);
    assert_eq!(v.events.len(), events_before);
}

#[test]
fn ctip_value_equals_sum_of_deltas() {
    let (mut v, m6, next) = voted_withdrawal_setup(6);
    connect(&mut v, next, vec![], vec![m6]);
    // Two records: one deposit, one withdrawal; the Ctip holds their sum.
    let mut sum: i64 = 0;
    let count = v.chain.try_get_count(3).expect("count");
    assert_eq!(count, 2);
    for q in 0..count {
        let u = v.chain.try_get_treasury_utxo(3, q).expect("record");
        sum += u.total_value as i64 - u.previous_total_value as i64;
    }
    assert_eq!(sum, v.get_ctip(3).expect("ctip").value as i64);
    // Sequence numbers are dense: the next one is not yet taken.
    assert!(v.chain.try_get_treasury_utxo(3, 2).is_none());
}

#[test]
fn two_way_peg_data_walks_the_range() {
    let (v, _t) = deposited_slot_3();
    let start = block_hash_for_height(104);
    let end = block_hash_for_height(107);
    let data = v.get_two_way_peg_data(Some(start), end).expect("peg data");
    // Blocks 105, 106 and 107, oldest first.
    assert_eq!(data.len(), 3);
    assert_eq!(data[0].header_info.block_hash, block_hash_for_height(105));
    assert_eq!(data[1].header_info.block_hash, block_hash_for_height(106));
    assert_eq!(data[2].header_info.block_hash, end);
    assert_eq!(data[2].block_info.deposits.len(), 1);
}

#[test]
fn duplicate_proposal_does_not_reset_votes() {
    let mut v = Validator::new();
    connect(&mut v, 100, vec![m1_hello()], vec![]);
    connect(&mut v, 101, vec![m2_hello()], vec![]);
    // Proposing the same description again changes nothing.
    connect(&mut v, 102, vec![m1_hello()], vec![]);
    let proposals = v.get_sidechain_proposals();
    assert_eq!(proposals.len(), 1);
    assert_eq!(proposals[0].1.vote_count, 1);
    assert_eq!(proposals[0].1.proposal_height, 100);
}

#[test]
fn ack_with_wrong_slot_is_ignored() {
    let mut v = Validator::new();
    connect(&mut v, 100, vec![m1_hello()], vec![]);
    let wrong = CoinbaseMessage::M2AckSidechain {
        sidechain_number: 4,
        data_hash: sha256d_reference(b"hello"),
    };
    connect(&mut v, 101, vec![wrong], vec![]);
    assert_eq!(v.get_sidechain_proposals()[0].1.vote_count, 0);
}
