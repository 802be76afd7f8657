//! The stated laws of the enforcer, proved over the same spec functions
//! the executable contracts use.

use vstd::prelude::*;

use crate::seqmap::{has_key, lemma_first_match_exists, lemma_lookup_at, lemma_lookup_has_key,
    lemma_store_then_remove_absent, lemma_store_then_store_back, lookup, unique_keys};
use crate::state::ChainStateV;
use crate::types::BlockV;
use crate::types::Hash256;
use crate::validator::{connect_spec, disconnect_spec, ValidatorV};

verus! {

/// Disconnecting a block just connected restores every durable table: on
/// any state and any block whose connect succeeds,
/// `disconnect(connect(S, B))` and `S` hold the same stores.
pub proof fn lemma_connect_disconnect_inverse(v: ValidatorV, b: BlockV, height: u32)
    requires
        connect_spec(v, b, height) is Ok,
    ensures
        ({
            let v2 = connect_spec(v, b, height)->Ok_0;
            &&& disconnect_spec(v2, b.header.block_hash) is Ok
            &&& disconnect_spec(v2, b.header.block_hash)->Ok_0.store() == v.store()
        }),
{
    let v2 = connect_spec(v, b, height)->Ok_0;
    let bh = b.header.block_hash;
    assert(v2.undo.last().0 == bh);
    let rec = v2.undo.last().1;
    let v3 = disconnect_spec(v2, bh)->Ok_0;
    let info = crate::engine::apply_block_spec(v.chain, b, height)->Ok_0.1;
    // The block record returns to what it was.
    lemma_lookup_has_key(v.block_infos, bh);
    if has_key(v.block_infos, bh) {
        lemma_first_match_exists(v.block_infos, bh);
        let i = choose|i: int|
            0 <= i < v.block_infos.len() && v.block_infos[i].0 == bh && (forall|j: int|
                0 <= j < i ==> v.block_infos[j].0 != bh);
        lemma_lookup_at(v.block_infos, bh, i);
        lemma_store_then_store_back(v.block_infos, bh, info, i);
    } else {
        lemma_store_then_remove_absent(v.block_infos, bh, info);
    }
    // The header table returns to what it was.
    if rec.header_written {
        let new_header = crate::types::HeaderInfo {
            block_hash: bh,
            prev_block_hash: b.header.prev_block_hash,
            height,
            work: crate::validator::cumulative_work_of(
                v.headers,
                b.header.prev_block_hash,
                b.header.work,
            ),
        };
        lemma_lookup_has_key(v.headers, bh);
        lemma_store_then_remove_absent(v.headers, bh, new_header);
    }
    assert(v3.store() =~~= v.store());
}

/// Replaying a block sequence from a state: each block connects in turn;
/// a block that fails to connect leaves the replay where it stood.
pub open spec fn replay_spec(
    v: ValidatorV,
    blocks: Seq<BlockV>,
    heights: Seq<u32>,
    k: int,
) -> ValidatorV
    decreases blocks.len() - k,
{
    if k < 0 || k >= blocks.len() || heights.len() != blocks.len() {
        v
    } else {
        match connect_spec(v, blocks[k], heights[k]) {
            Ok(v2) => replay_spec(v2, blocks, heights, k + 1),
            Err(_) => v,
        }
    }
}

/// Replay determinism: two enforcers holding the same stores, given the
/// same block sequence at the same heights, hold the same stores at every
/// step. Connecting is a function of the prior state and the block alone,
/// so equal starts give equal histories.
pub proof fn lemma_replay_deterministic(
    v1: ValidatorV,
    v2: ValidatorV,
    blocks: Seq<BlockV>,
    heights: Seq<u32>,
)
    requires
        v1 == v2,
    ensures
        replay_spec(v1, blocks, heights, 0) == replay_spec(v2, blocks, heights, 0),
{
}

/// One record per slot: under the state invariant no slot carries two
/// sidechain records, two Ctips, or two counts, and a slot carries a Ctip
/// exactly when it carries a count. A slot activated before its first
/// treasury transaction carries a sidechain record and, as yet, no Ctip.
pub proof fn lemma_one_record_per_slot(s: ChainStateV, sn: u8)
    requires
        s.inv(),
    ensures
        forall|i: int, j: int|
            0 <= i < s.active.len() && 0 <= j < s.active.len() && s.active[i].0 == sn
                && s.active[j].0 == sn ==> i == j,
        forall|i: int, j: int|
            0 <= i < s.ctips.len() && 0 <= j < s.ctips.len() && s.ctips[i].0 == sn
                && s.ctips[j].0 == sn ==> i == j,
        forall|i: int, j: int|
            0 <= i < s.counts.len() && 0 <= j < s.counts.len() && s.counts[i].0 == sn
                && s.counts[j].0 == sn ==> i == j,
        has_key(s.ctips, sn) <==> has_key(s.counts, sn),
{
}

/// Dense sequence numbers: under the state invariant, a slot's recorded
/// treasury sequence numbers are exactly the prefix below its count.
pub proof fn lemma_sequence_numbers_dense(s: ChainStateV, sn: u8, q: u64)
    requires
        s.inv(),
        s.slot_unsaturated(sn),
    ensures
        has_key(s.treasury, (sn, q)) <==> (lookup(s.counts, sn) is Some && q < lookup(
            s.counts,
            sn,
        )->Some_0),
{
}

/// The sum of a slot's recorded value changes over sequence numbers
/// `0 .. n`.
pub open spec fn delta_sum(s: ChainStateV, sn: u8, n: int) -> int
    decreases n,
{
    if n <= 0 {
        0
    } else {
        let u = lookup(s.treasury, (sn, (n - 1) as u64))->Some_0;
        delta_sum(s, sn, n - 1) + u.total_value - u.previous_total_value
    }
}

/// The sum telescopes: over `0 .. m` it equals the newest record's total.
proof fn lemma_delta_sum_telescopes(s: ChainStateV, sn: u8, m: int)
    requires
        s.inv(),
        s.slot_unsaturated(sn),
        lookup(s.counts, sn) is Some,
        0 < m <= lookup(s.counts, sn)->Some_0,
    ensures
        delta_sum(s, sn, m) == lookup(s.treasury, (sn, (m - 1) as u64))->Some_0.total_value,
    decreases m,
{
    let q: u64 = (m - 1) as u64;
    assert(q as int == m - 1);
    assert(has_key(s.treasury, (sn, q)));
    lemma_lookup_has_key(s.treasury, (sn, q));
    let u = lookup(s.treasury, (sn, q))->Some_0;
    assert(delta_sum(s, sn, m) == delta_sum(s, sn, m - 1) + u.total_value
        - u.previous_total_value);
    if m == 1 {
        assert(u.previous_total_value == 0);
        assert(delta_sum(s, sn, 0) == 0);
    } else {
        lemma_delta_sum_telescopes(s, sn, m - 1);
        assert((q - 1) as u64 == (m - 2) as u64);
        assert(u.previous_total_value == lookup(
            s.treasury,
            (sn, (m - 2) as u64),
        )->Some_0.total_value);
    }
}

/// The treasury ledger balances: under the state invariant, a slot's Ctip
/// value equals the sum of the value changes of all its treasury records.
pub proof fn lemma_ctip_value_is_delta_sum(s: ChainStateV, sn: u8)
    requires
        s.inv(),
        s.slot_unsaturated(sn),
        lookup(s.ctips, sn) is Some,
    ensures
        delta_sum(s, sn, lookup(s.counts, sn)->Some_0 as int) == lookup(
            s.ctips,
            sn,
        )->Some_0.value,
{
    let n = lookup(s.counts, sn)->Some_0;
    assert(n >= 1);
    lemma_delta_sum_telescopes(s, sn, n as int);
}

/// No dual membership at activation: when an ack activates a proposal, the
/// proposal leaves the proposal table in the same step that the activated
/// record enters its slot. (A later fresh proposal of the same description
/// may re-enter the proposal table; this law speaks of the moving step.)
pub proof fn lemma_activation_moves_proposal(
    s: ChainStateV,
    height: u32,
    sn: u8,
    dh: Hash256,
)
    requires
        unique_keys(s.proposals),
        lookup(s.proposals, dh) is Some,
        lookup(s.proposals, dh)->Some_0.sidechain_number == sn,
        crate::engine::m2_activates(
            lookup(s.active, sn) is Some,
            crate::engine::saturating_inc_u16(lookup(s.proposals, dh)->Some_0.vote_count),
            lookup(s.proposals, dh)->Some_0.proposal_height,
            height,
        ),
    ensures
        lookup(crate::engine::m2_spec(s, height, sn, dh).proposals, dh) is None,
        lookup(crate::engine::m2_spec(s, height, sn, dh).active, sn) is Some,
        ({
            let p = lookup(s.proposals, dh)->Some_0;
            lookup(crate::engine::m2_spec(s, height, sn, dh).active, sn)->Some_0
                == (crate::types::SidechainV {
                sidechain_number: sn,
                data: p.data,
                vote_count: crate::engine::saturating_inc_u16(p.vote_count),
                proposal_height: p.proposal_height,
                activation_height: height,
            })
        }),
{
    let p = lookup(s.proposals, dh)->Some_0;
    let p2 = crate::types::SidechainProposalV {
        vote_count: crate::engine::saturating_inc_u16(p.vote_count),
        ..p
    };
    crate::seqmap::lemma_store_unique(s.proposals, dh, p2);
    crate::seqmap::lemma_lookup_remove_same(crate::seqmap::store_kv(s.proposals, dh, p2), dh);
    crate::seqmap::lemma_lookup_store_same(
        s.active,
        sn,
        crate::types::SidechainV {
            sidechain_number: sn,
            data: p.data,
            vote_count: p2.vote_count,
            proposal_height: p.proposal_height,
            activation_height: height,
        },
    );
}

/// Proposing a sidechain keeps the state invariant.
pub proof fn lemma_m1_preserves_inv(s: ChainStateV, height: u32, sn: u8, data: Seq<u8>)
    requires
        s.inv(),
    ensures
        crate::engine::m1_spec(s, height, sn, data).inv(),
{
    let dh = crate::digest::sha256d_spec(data);
    if lookup(s.proposals, dh) is None {
        crate::seqmap::lemma_store_unique(
            s.proposals,
            dh,
            crate::types::SidechainProposalV {
                sidechain_number: sn,
                data,
                vote_count: 0,
                proposal_height: height,
            },
        );
    }
}

/// Acking a sidechain keeps the state invariant.
pub proof fn lemma_m2_preserves_inv(s: ChainStateV, height: u32, sn: u8, dh: Hash256)
    requires
        s.inv(),
    ensures
        crate::engine::m2_spec(s, height, sn, dh).inv(),
{
    match lookup(s.proposals, dh) {
        None => {},
        Some(p) => {
            if p.sidechain_number == sn {
                let p2 = crate::types::SidechainProposalV {
                    vote_count: crate::engine::saturating_inc_u16(p.vote_count),
                    ..p
                };
                crate::seqmap::lemma_store_unique(s.proposals, dh, p2);
                crate::seqmap::lemma_remove_unique(
                    crate::seqmap::store_kv(s.proposals, dh, p2),
                    dh,
                );
                let sc = crate::types::SidechainV {
                    sidechain_number: sn,
                    data: p.data,
                    vote_count: p2.vote_count,
                    proposal_height: p.proposal_height,
                    activation_height: height,
                };
                crate::seqmap::lemma_store_unique(s.active, sn, sc);
            }
        },
    }
}

/// Proposing a bundle keeps the state invariant.
pub proof fn lemma_m3_preserves_inv(s: ChainStateV, sn: u8, m6id: Hash256)
    requires
        s.inv(),
        crate::engine::m3_spec(s, sn, m6id) is Ok,
    ensures
        crate::engine::m3_spec(s, sn, m6id)->Ok_0.inv(),
{
    let list = match lookup(s.pending, sn) {
        Some(l) => l,
        None => Seq::empty(),
    };
    crate::seqmap::lemma_store_unique(
        s.pending,
        sn,
        list.push(crate::types::PendingM6id { m6id, vote_count: 0 }),
    );
}

/// One slot's vote keeps the state invariant.
proof fn lemma_m4_vote_one_preserves_inv(s: ChainStateV, sn: u8, vote: u16)
    requires
        s.inv(),
    ensures
        crate::engine::m4_vote_one_spec(s, sn, vote).inv(),
{
    if vote != crate::codec::ABSTAIN_TWO_BYTES {
        match lookup(s.pending, sn) {
            None => {},
            Some(list) => {
                let s2 = crate::engine::m4_vote_one_spec(s, sn, vote);
                crate::seqmap::lemma_store_unique(s.pending, sn, s2.pending.last().1);
                assert(unique_keys(s2.pending)) by {
                    let list2 = if vote == crate::codec::ALARM_TWO_BYTES {
                        crate::engine::alarm_list(list)
                    } else if vote < list.len() {
                        list.update(
                            vote as int,
                            crate::types::PendingM6id {
                                m6id: list[vote as int].m6id,
                                vote_count: crate::engine::saturating_inc_u16(
                                    list[vote as int].vote_count,
                                ),
                            },
                        )
                    } else {
                        list
                    };
                    crate::seqmap::lemma_store_unique(s.pending, sn, list2);
                }
            },
        }
    }
}

/// A vote list keeps the state invariant.
proof fn lemma_m4_votes_from_preserves_inv(s: ChainStateV, upvotes: Seq<u16>, k: int)
    requires
        s.inv(),
    ensures
        crate::engine::m4_votes_from_spec(s, upvotes, k).inv(),
    decreases upvotes.len() - k,
{
    if 0 <= k < upvotes.len() {
        lemma_m4_vote_one_preserves_inv(s, (k % 256) as u8, upvotes[k]);
        lemma_m4_votes_from_preserves_inv(
            crate::engine::m4_vote_one_spec(s, (k % 256) as u8, upvotes[k]),
            upvotes,
            k + 1,
        );
    }
}

/// An ack-bundles message keeps the state invariant.
pub proof fn lemma_m4_ack_preserves_inv(s: ChainStateV, m4: crate::types::M4AckBundlesV)
    requires
        s.inv(),
        crate::engine::m4_ack_spec(s, m4) is Ok,
    ensures
        crate::engine::m4_ack_spec(s, m4)->Ok_0.inv(),
{
    match m4 {
        crate::types::M4AckBundlesV::OneByte { upvotes } => {
            lemma_m4_votes_from_preserves_inv(s, upvotes.map_values(|v: u8| v as u16), 0);
        },
        crate::types::M4AckBundlesV::TwoBytes { upvotes } => {
            lemma_m4_votes_from_preserves_inv(s, upvotes, 0);
        },
        _ => {},
    }
}

/// The surviving proposals are drawn from the table, keyed without
/// repetition.
proof fn lemma_kept_proposals_unique(
    props: Seq<(Hash256, crate::types::SidechainProposalV)>,
    active: Seq<(u8, crate::types::SidechainV)>,
    height: u32,
)
    requires
        unique_keys(props),
    ensures
        unique_keys(crate::engine::kept_proposals(props, active, height)),
        forall|k: Hash256| #[trigger] has_key(
            crate::engine::kept_proposals(props, active, height),
            k,
        ) ==> has_key(props, k),
    decreases props.len(),
{
    if props.len() > 0 {
        assert(unique_keys(props.drop_last())) by {
            assert(forall|i: int, j: int|
                0 <= i < j < props.drop_last().len() ==> props.drop_last()[i].0
                    != props.drop_last()[j].0);
        }
        lemma_kept_proposals_unique(props.drop_last(), active, height);
        let rest = crate::engine::kept_proposals(props.drop_last(), active, height);
        let last = props.last();
        if !crate::engine::proposal_failed(active, last.1, height) {
            let out = rest.push(last);
            assert(unique_keys(out)) by {
                assert forall|i: int, j: int|
                    0 <= i < j < out.len() implies out[i].0 != out[j].0 by {
                    if j == out.len() - 1 {
                        assert(has_key(rest, rest[i].0));
                        assert(has_key(props.drop_last(), rest[i].0));
                        let w = choose|w: int|
                            0 <= w < props.drop_last().len() && props.drop_last()[w].0
                                == rest[i].0;
                        assert(props[w].0 == rest[i].0);
                        assert(props[w].0 != last.0);
                    }
                }
            }
            assert forall|k: Hash256| #[trigger] has_key(out, k) implies has_key(props, k) by {
                let w = choose|w: int| 0 <= w < out.len() && out[w].0 == k;
                if w < out.len() - 1 {
                    assert(has_key(rest, k));
                    let w2 = choose|w2: int|
                        0 <= w2 < props.drop_last().len() && props.drop_last()[w2].0 == k;
                    assert(props[w2].0 == k);
                } else {
                    assert(props[props.len() - 1].0 == k);
                }
            }
        } else {
            assert forall|k: Hash256| #[trigger] has_key(rest, k) implies has_key(props, k) by {
                let w2 = choose|w2: int|
                    0 <= w2 < props.drop_last().len() && props.drop_last()[w2].0 == k;
                assert(props[w2].0 == k);
            }
        }
    }
}

/// The proposal expiry sweep keeps the state invariant.
pub proof fn lemma_sweep_proposals_preserves_inv(s: ChainStateV, height: u32)
    requires
        s.inv(),
    ensures
        crate::engine::sweep_proposals_spec(s, height).inv(),
{
    lemma_kept_proposals_unique(s.proposals, s.active, height);
}

/// The bundle expiry sweep keeps the state invariant.
pub proof fn lemma_sweep_bundles_preserves_inv(s: ChainStateV)
    requires
        s.inv(),
    ensures
        crate::engine::sweep_bundles_state_spec(s).inv(),
{
    let s2 = crate::engine::sweep_bundles_state_spec(s);
    assert(unique_keys(s2.pending)) by {
        assert(forall|i: int| 0 <= i < s.pending.len() ==> (#[trigger] s2.pending[i]).0
            == s.pending[i].0);
    }
}

/// A treasury transaction keeps the state invariant.
#[verifier::rlimit(100)]
pub proof fn lemma_m5m6_preserves_inv(s: ChainStateV, tx: crate::types::TransactionV)
    requires
        s.inv(),
        crate::engine::m5m6_spec(s, tx) is Ok,
    ensures
        crate::engine::m5m6_spec(s, tx)->Ok_0.0.inv(),
{
    if tx.outputs.len() == 0 {
        return ;
    }
    match crate::codec::parse_op_drivechain_spec(tx.outputs[0].script_pubkey) {
        None => {},
        Some(sn) => {
            let new_outpoint = crate::types::OutPoint { txid: tx.txid, vout: 0 };
            let new_total = tx.outputs[0].value;
            let old_ctip = lookup(s.ctips, sn);
            let old_total = if old_ctip is Some {
                old_ctip->Some_0.value
            } else {
                0u64
            };
            // The pending list may shrink; nothing else changes yet.
            let s1 = if new_total < old_total {
                let m6id = crate::digest::m6id_spec(tx.raw, old_total);
                let list = lookup(s.pending, sn)->Some_0;
                crate::seqmap::lemma_store_unique(
                    s.pending,
                    sn,
                    crate::engine::kept_bundles(list, seq![m6id]),
                );
                s.with_pending(
                    crate::seqmap::store_kv(
                        s.pending,
                        sn,
                        crate::engine::kept_bundles(list, seq![m6id]),
                    ),
                )
            } else {
                s
            };
            assert(s1.ctips == s.ctips && s1.counts == s.counts && s1.treasury == s.treasury);
            assert(s1.keys_unique());
            let count = match lookup(s1.counts, sn) {
                Some(n) => n,
                None => 0u64,
            };
            let count2 = crate::engine::saturating_inc_u64(count);
            let s2 = crate::engine::m5m6_spec(s, tx)->Ok_0.0;
            crate::seqmap::lemma_store_unique(s1.treasury, (sn, count), s2.treasury.last().1);
            assert(unique_keys(s2.treasury)) by {
                crate::seqmap::lemma_store_unique(
                    s1.treasury,
                    (sn, count),
                    crate::types::TreasuryUtxoV {
                        outpoint: new_outpoint,
                        address: crate::engine::tx_address(tx),
                        total_value: new_total,
                        previous_total_value: old_total,
                    },
                );
            }
            crate::seqmap::lemma_store_unique(s1.counts, sn, count2);
            crate::seqmap::lemma_store_unique(
                s1.ctips,
                sn,
                crate::types::Ctip { outpoint: new_outpoint, value: new_total },
            );
            // Every coupling clause, slot by slot.
            lemma_m5m6_peg_clauses(s, s1, s2, tx, sn, count, count2, old_total, new_total,
                new_outpoint);
        },
    }
}

/// The coupling clauses after a treasury transaction, separated to keep
/// each query small.
#[verifier::rlimit(100)]
proof fn lemma_m5m6_peg_clauses(
    s: ChainStateV,
    s1: ChainStateV,
    s2: ChainStateV,
    tx: crate::types::TransactionV,
    sn: u8,
    count: u64,
    count2: u64,
    old_total: u64,
    new_total: u64,
    new_outpoint: crate::types::OutPoint,
)
    requires
        s.inv(),
        s1.ctips == s.ctips,
        s1.counts == s.counts,
        s1.treasury == s.treasury,
        count == (match lookup(s1.counts, sn) {
            Some(n) => n,
            None => 0u64,
        }),
        count2 == crate::engine::saturating_inc_u64(count),
        old_total == (match lookup(s.ctips, sn) {
            Some(c) => c.value,
            None => 0u64,
        }),
        new_outpoint.vout == 0,
        s2 == (ChainStateV {
            treasury: crate::seqmap::store_kv(
                s1.treasury,
                (sn, count),
                crate::types::TreasuryUtxoV {
                    outpoint: new_outpoint,
                    address: crate::engine::tx_address(tx),
                    total_value: new_total,
                    previous_total_value: old_total,
                },
            ),
            counts: crate::seqmap::store_kv(s1.counts, sn, count2),
            ctips: crate::seqmap::store_kv(
                s1.ctips,
                sn,
                crate::types::Ctip { outpoint: new_outpoint, value: new_total },
            ),
            ..s1
        }),
    ensures
        s2.peg_coupled(),
{
    let utxo = crate::types::TreasuryUtxoV {
        outpoint: new_outpoint,
        address: crate::engine::tx_address(tx),
        total_value: new_total,
        previous_total_value: old_total,
    };
    let new_ctip = crate::types::Ctip { outpoint: new_outpoint, value: new_total };
    crate::seqmap::lemma_lookup_store_same(s1.treasury, (sn, count), utxo);
    crate::seqmap::lemma_lookup_store_same(s1.counts, sn, count2);
    crate::seqmap::lemma_lookup_store_same(s1.ctips, sn, new_ctip);
    lemma_lookup_has_key(s.counts, sn);
    lemma_lookup_has_key(s.ctips, sn);
    // Ctip exactly when count.
    assert forall|sn2: u8| has_key(s2.ctips, sn2) <==> has_key(s2.counts, sn2) by {
        lemma_lookup_has_key(s2.ctips, sn2);
        lemma_lookup_has_key(s2.counts, sn2);
        if sn2 != sn {
            crate::seqmap::lemma_lookup_store_other(s1.ctips, sn, new_ctip, sn2);
            crate::seqmap::lemma_lookup_store_other(s1.counts, sn, count2, sn2);
            lemma_lookup_has_key(s.ctips, sn2);
            lemma_lookup_has_key(s.counts, sn2);
        }
    }
    // Counts start at one.
    assert forall|sn2: u8| #[trigger] lookup(s2.counts, sn2) is Some implies lookup(
        s2.counts,
        sn2,
    )->Some_0 >= 1 by {
        if sn2 != sn {
            crate::seqmap::lemma_lookup_store_other(s1.counts, sn, count2, sn2);
        }
    }
    // Density.
    assert forall|sn2: u8, q: u64| s2.slot_unsaturated(sn2) implies (#[trigger] has_key(
        s2.treasury,
        (sn2, q),
    ) <==> (lookup(s2.counts, sn2) is Some && q < lookup(s2.counts, sn2)->Some_0)) by {
        lemma_lookup_has_key(s2.treasury, (sn2, q));
        lemma_lookup_has_key(s1.treasury, (sn2, q));
        if sn2 == sn {
            assert(count2 < 0xFFFF_FFFF_FFFF_FFFF);
            assert(count < 0xFFFF_FFFF_FFFF_FFFF);
            assert(s.slot_unsaturated(sn));
            if q == count {
            } else {
                crate::seqmap::lemma_lookup_store_other(s1.treasury, (sn, count), utxo, (sn2, q));
                assert(has_key(s.treasury, (sn, q)) <==> (lookup(s.counts, sn) is Some && q
                    < lookup(s.counts, sn)->Some_0));
            }
        } else {
            crate::seqmap::lemma_lookup_store_other(s1.treasury, (sn, count), utxo, (sn2, q));
            crate::seqmap::lemma_lookup_store_other(s1.counts, sn, count2, sn2);
            assert(s.slot_unsaturated(sn2));
            assert(has_key(s.treasury, (sn2, q)) <==> (lookup(s.counts, sn2) is Some && q
                < lookup(s.counts, sn2)->Some_0));
        }
    }
    // Chained totals and zero vout.
    assert forall|sn2: u8, q: u64| s2.slot_unsaturated(sn2) && #[trigger] lookup(
        s2.treasury,
        (sn2, q),
    ) is Some implies {
        let u = lookup(s2.treasury, (sn2, q))->Some_0;
        &&& u.outpoint.vout == 0
        &&& u.previous_total_value == if q == 0 {
            0u64
        } else {
            lookup(s2.treasury, (sn2, (q - 1) as u64))->Some_0.total_value
        }
    } by {
        lemma_lookup_has_key(s2.treasury, (sn2, q));
        lemma_lookup_has_key(s1.treasury, (sn2, q));
        if sn2 == sn {
            assert(s.slot_unsaturated(sn));
            if q == count {
                if count == 0 {
                    assert(!has_key(s.counts, sn));
                    assert(!has_key(s.ctips, sn));
                    assert(old_total == 0);
                } else {
                    assert(has_key(s.counts, sn));
                    assert(has_key(s.ctips, sn));
                    assert(lookup(s.ctips, sn) is Some);
                    assert(old_total == lookup(
                        s.treasury,
                        (sn, (count - 1) as u64),
                    )->Some_0.total_value);
                    crate::seqmap::lemma_lookup_store_other(
                        s1.treasury,
                        (sn, count),
                        utxo,
                        (sn, (count - 1) as u64),
                    );
                }
            } else {
                crate::seqmap::lemma_lookup_store_other(s1.treasury, (sn, count), utxo, (sn2, q));
                if q > 0 {
                    assert(has_key(s.treasury, (sn, q)));
                    assert(q < count);
                    assert((q - 1) as u64 != count);
                    crate::seqmap::lemma_lookup_store_other(
                        s1.treasury,
                        (sn, count),
                        utxo,
                        (sn, (q - 1) as u64),
                    );
                }
            }
        } else {
            crate::seqmap::lemma_lookup_store_other(s1.treasury, (sn, count), utxo, (sn2, q));
            crate::seqmap::lemma_lookup_store_other(s1.counts, sn, count2, sn2);
            assert(s.slot_unsaturated(sn2));
            if q > 0 {
                crate::seqmap::lemma_lookup_store_other(
                    s1.treasury,
                    (sn, count),
                    utxo,
                    (sn2, (q - 1) as u64),
                );
            }
        }
    }
    // The Ctip mirrors the newest record.
    assert forall|sn2: u8| s2.slot_unsaturated(sn2) && #[trigger] lookup(s2.ctips, sn2)
        is Some implies {
        let c = lookup(s2.ctips, sn2)->Some_0;
        let n = lookup(s2.counts, sn2)->Some_0;
        let last = lookup(s2.treasury, (sn2, (n - 1) as u64))->Some_0;
        &&& lookup(s2.counts, sn2) is Some
        &&& c.outpoint == last.outpoint
        &&& c.value == last.total_value
    } by {
        if sn2 == sn {
            assert(count2 < 0xFFFF_FFFF_FFFF_FFFF);
            assert(count2 == count + 1);
            assert((count2 - 1) as u64 == count);
        } else {
            crate::seqmap::lemma_lookup_store_other(s1.ctips, sn, new_ctip, sn2);
            crate::seqmap::lemma_lookup_store_other(s1.counts, sn, count2, sn2);
            if lookup(s.ctips, sn2) is Some {
                assert(s.slot_unsaturated(sn2));
                let n = lookup(s.counts, sn2)->Some_0;
                crate::seqmap::lemma_lookup_store_other(
                    s1.treasury,
                    (sn, count),
                    utxo,
                    (sn2, (n - 1) as u64),
                );
            }
        }
    }
}

/// Events and store agree, transaction by transaction: a reported deposit
/// is exactly a fresh treasury record that raised the total and names a
/// recipient script, and every such record is reported. (Deposits over a
/// whole chain follow by applying this to each treasury transaction of
/// each connected block.)
pub proof fn lemma_deposit_event_matches_treasury_row(
    s: ChainStateV,
    tx: crate::types::TransactionV,
)
    requires
        s.inv(),
        crate::engine::m5m6_spec(s, tx) is Ok,
    ensures
        ({
            let s2 = crate::engine::m5m6_spec(s, tx)->Ok_0.0;
            let ev = crate::engine::m5m6_spec(s, tx)->Ok_0.1;
            // A reported deposit names a recorded transition exactly.
            &&& (match ev {
                Some(crate::engine::TxEventV::Deposit(d)) => {
                    &&& lookup(s2.treasury, (d.sidechain_id, d.sequence_number)) is Some
                    &&& {
                        let u = lookup(
                            s2.treasury,
                            (d.sidechain_id, d.sequence_number),
                        )->Some_0;
                        &&& u.address == Some(d.output.script_pubkey)
                        &&& u.total_value >= u.previous_total_value
                        &&& d.output.value == u.total_value - u.previous_total_value
                        &&& u.outpoint == d.outpoint
                    }
                },
                _ => true,
            })
            // A recorded transition that raised the total and names a
            // recipient is reported as a deposit.
            &&& (tx.outputs.len() > 0 && crate::codec::parse_op_drivechain_spec(
                tx.outputs[0].script_pubkey,
            ) is Some ==> {
                let sn = crate::codec::parse_op_drivechain_spec(
                    tx.outputs[0].script_pubkey,
                )->Some_0;
                let count = match lookup(s.counts, sn) {
                    Some(n) => n,
                    None => 0u64,
                };
                let u = lookup(s2.treasury, (sn, count))->Some_0;
                (u.address is Some && u.total_value > u.previous_total_value) ==> (
                ev matches Some(crate::engine::TxEventV::Deposit(d)) && d.sidechain_id == sn
                    && d.sequence_number == count)
            })
        }),
{
    if tx.outputs.len() == 0 {
        return ;
    }
    match crate::codec::parse_op_drivechain_spec(tx.outputs[0].script_pubkey) {
        None => {},
        Some(sn) => {
            let new_outpoint = crate::types::OutPoint { txid: tx.txid, vout: 0 };
            let new_total = tx.outputs[0].value;
            let old_ctip = lookup(s.ctips, sn);
            let old_total = if old_ctip is Some {
                old_ctip->Some_0.value
            } else {
                0u64
            };
            let s1 = if new_total < old_total {
                let m6id = crate::digest::m6id_spec(tx.raw, old_total);
                let list = lookup(s.pending, sn)->Some_0;
                s.with_pending(
                    crate::seqmap::store_kv(
                        s.pending,
                        sn,
                        crate::engine::kept_bundles(list, seq![m6id]),
                    ),
                )
            } else {
                s
            };
            let count = match lookup(s1.counts, sn) {
                Some(n) => n,
                None => 0u64,
            };
            let utxo = crate::types::TreasuryUtxoV {
                outpoint: new_outpoint,
                address: crate::engine::tx_address(tx),
                total_value: new_total,
                previous_total_value: old_total,
            };
            crate::seqmap::lemma_lookup_store_same(s1.treasury, (sn, count), utxo);
        },
    }
}

/// Whether a reported deposit names a treasury record exactly: same
/// outpoint, a recipient script, and the value change it reports.
pub open spec fn deposit_matched(s: ChainStateV, d: crate::types::DepositV) -> bool {
    match lookup(s.treasury, (d.sidechain_id, d.sequence_number)) {
        Some(u) => {
            &&& u.address == Some(d.output.script_pubkey)
            &&& u.total_value >= u.previous_total_value
            &&& d.output.value == u.total_value - u.previous_total_value
            &&& u.outpoint == d.outpoint
        },
        None => false,
    }
}

/// A reported deposit whose record stands below its slot's count.
pub open spec fn deposit_recorded(s: ChainStateV, d: crate::types::DepositV) -> bool {
    &&& deposit_matched(s, d)
    &&& lookup(s.counts, d.sidechain_id) is Some
    &&& d.sequence_number < lookup(s.counts, d.sidechain_id)->Some_0
}

/// Through the transaction loop, every gathered deposit stays recorded in
/// the advancing state (for slots below the count ceiling): later treasury
/// transactions append records and never overwrite earlier ones.
proof fn lemma_txs_deposits_recorded(
    s: ChainStateV,
    txs: Seq<crate::types::TransactionV>,
    k: int,
    commitments: Seq<(u8, Hash256)>,
    prev: Hash256,
    deposits: Seq<crate::types::DepositV>,
    wevents: Seq<crate::types::WithdrawalBundleEvent>,
)
    requires
        s.inv(),
        crate::engine::apply_txs_from(s, txs, k, commitments, prev, deposits, wevents) is Ok,
        forall|j: int|
            0 <= j < deposits.len() ==> (s.slot_unsaturated((#[trigger] deposits[j]).sidechain_id)
                ==> deposit_recorded(s, deposits[j])),
    ensures
        ({
            let s2 = crate::engine::apply_txs_from(s, txs, k, commitments, prev, deposits, wevents)
                ->Ok_0.0;
            let deps2 = crate::engine::apply_txs_from(
                s,
                txs,
                k,
                commitments,
                prev,
                deposits,
                wevents,
            )->Ok_0.1;
            forall|j: int|
                0 <= j < deps2.len() ==> (s2.slot_unsaturated((#[trigger] deps2[j]).sidechain_id)
                    ==> deposit_recorded(s2, deps2[j]))
        }),
    decreases txs.len() - k,
{
    if k < 0 || k >= txs.len() {
    } else {
        match crate::engine::m5m6_spec(s, txs[k]) {
            Err(_) => {},
            Ok((s2, ev)) => {
                lemma_m5m6_preserves_inv(s, txs[k]);
                lemma_deposit_event_matches_treasury_row(s, txs[k]);
                let tx = txs[k];
                let deposits2 = match ev {
                    Some(crate::engine::TxEventV::Deposit(d)) => deposits.push(d),
                    _ => deposits,
                };
                let wevents2 = match ev {
                    Some(crate::engine::TxEventV::Withdrawal { sidechain_id, m6id }) => wevents
                        .push(
                        crate::types::WithdrawalBundleEvent {
                            sidechain_id,
                            m6id,
                            kind: crate::types::WithdrawalBundleEventKind::Succeeded,
                        },
                    ),
                    _ => wevents,
                };
                assert(forall|j: int|
                    0 <= j < deposits2.len() ==> (s2.slot_unsaturated(
                        (#[trigger] deposits2[j]).sidechain_id,
                    ) ==> deposit_recorded(s2, deposits2[j]))) by {
                    if tx.outputs.len() > 0 && crate::codec::parse_op_drivechain_spec(
                        tx.outputs[0].script_pubkey,
                    ) is Some {
                        let sn = crate::codec::parse_op_drivechain_spec(
                            tx.outputs[0].script_pubkey,
                        )->Some_0;
                        let count = match lookup(s.counts, sn) {
                            Some(n) => n,
                            None => 0u64,
                        };
                        let count2 = crate::engine::saturating_inc_u64(count);
                        crate::seqmap::lemma_lookup_store_same(s.counts, sn, count2);
                        assert forall|j: int|
                            0 <= j < deposits2.len() && s2.slot_unsaturated(
                                (#[trigger] deposits2[j]).sidechain_id,
                            ) implies deposit_recorded(s2, deposits2[j]) by {
                            let d = deposits2[j];
                            if d.sidechain_id != sn {
                                crate::seqmap::lemma_lookup_store_other(
                                    s.counts,
                                    sn,
                                    count2,
                                    d.sidechain_id,
                                );
                                lemma_row_lookup_unchanged(s, tx, sn, count, d);
                            } else {
                                // Same slot: the new record sits at the old
                                // count; earlier records sit below it.
                                assert(count2 < 0xFFFF_FFFF_FFFF_FFFF);
                                assert(count < 0xFFFF_FFFF_FFFF_FFFF && count2 == count + 1);
                                if j < deposits.len() {
                                    assert(s.slot_unsaturated(sn));
                                    assert(deposit_recorded(s, d));
                                    assert(d.sequence_number < count);
                                    lemma_row_lookup_unchanged(s, tx, sn, count, d);
                                } else {
                                    assert(d.sequence_number == count);
                                }
                            }
                        }
                    } else {
                        assert(s2 == s);
                    }
                }
                if crate::engine::m8_spec(tx, commitments, prev) is Ok {
                    lemma_txs_deposits_recorded(
                        s2,
                        txs,
                        k + 1,
                        commitments,
                        prev,
                        deposits2,
                        wevents2,
                    );
                }
            },
        }
    }
}

/// A treasury write at `(sn, count)` leaves the record a deposit at a
/// different key names untouched.
proof fn lemma_row_lookup_unchanged(
    s: ChainStateV,
    tx: crate::types::TransactionV,
    sn: u8,
    count: u64,
    d: crate::types::DepositV,
)
    requires
        s.inv(),
        tx.outputs.len() > 0,
        crate::codec::parse_op_drivechain_spec(tx.outputs[0].script_pubkey) == Some(sn),
        crate::engine::m5m6_spec(s, tx) is Ok,
        count == (match lookup(s.counts, sn) {
            Some(n) => n,
            None => 0u64,
        }),
        deposit_recorded(s, d),
        (d.sidechain_id, d.sequence_number) != (sn, count),
    ensures
        deposit_matched(crate::engine::m5m6_spec(s, tx)->Ok_0.0, d),
{
    let s2 = crate::engine::m5m6_spec(s, tx)->Ok_0.0;
    let new_outpoint = crate::types::OutPoint { txid: tx.txid, vout: 0 };
    let new_total = tx.outputs[0].value;
    let old_ctip = lookup(s.ctips, sn);
    let old_total = if old_ctip is Some {
        old_ctip->Some_0.value
    } else {
        0u64
    };
    let s1 = if new_total < old_total {
        let m6id = crate::digest::m6id_spec(tx.raw, old_total);
        let list = lookup(s.pending, sn)->Some_0;
        s.with_pending(
            crate::seqmap::store_kv(
                s.pending,
                sn,
                crate::engine::kept_bundles(list, seq![m6id]),
            ),
        )
    } else {
        s
    };
    let utxo = crate::types::TreasuryUtxoV {
        outpoint: new_outpoint,
        address: crate::engine::tx_address(tx),
        total_value: new_total,
        previous_total_value: old_total,
    };
    assert(s2.treasury == crate::seqmap::store_kv(s1.treasury, (sn, count), utxo));
    crate::seqmap::lemma_lookup_store_other(
        s1.treasury,
        (sn, count),
        utxo,
        (d.sidechain_id, d.sequence_number),
    );
}

/// Events and store agree over a connected block: every deposit the
/// block's record (and so its connect event) reports names a treasury
/// record of the resulting state exactly, for every slot below the count
/// ceiling.
pub proof fn lemma_block_deposits_recorded(s: ChainStateV, b: BlockV, height: u32)
    requires
        s.inv(),
        b.txdata.len() >= 1,
        crate::engine::apply_block_spec(s, b, height) is Ok,
    ensures
        ({
            let s2 = crate::engine::apply_block_spec(s, b, height)->Ok_0.0;
            let info = crate::engine::apply_block_spec(s, b, height)->Ok_0.1;
            forall|j: int|
                0 <= j < info.deposits.len() ==> (s2.slot_unsaturated(
                    (#[trigger] info.deposits[j]).sidechain_id,
                ) ==> deposit_matched(s2, info.deposits[j]))
        }),
{
    lemma_apply_coinbase_preserves_inv(
        s,
        b.txdata[0].outputs,
        height,
        0,
        Seq::empty(),
        Seq::empty(),
        Seq::empty(),
    );
    let s1 = crate::engine::apply_coinbase_from(
        s,
        b.txdata[0].outputs,
        height,
        0,
        Seq::empty(),
        Seq::empty(),
        Seq::empty(),
    )->Ok_0.0;
    let commitments = crate::engine::apply_coinbase_from(
        s,
        b.txdata[0].outputs,
        height,
        0,
        Seq::empty(),
        Seq::empty(),
        Seq::empty(),
    )->Ok_0.1;
    let sub_events = crate::engine::apply_coinbase_from(
        s,
        b.txdata[0].outputs,
        height,
        0,
        Seq::empty(),
        Seq::empty(),
        Seq::empty(),
    )->Ok_0.3;
    lemma_sweep_proposals_preserves_inv(s1, height);
    let s2 = crate::engine::sweep_proposals_spec(s1, height);
    lemma_sweep_bundles_preserves_inv(s2);
    let s3 = crate::engine::sweep_bundles_state_spec(s2);
    lemma_txs_deposits_recorded(
        s3,
        b.txdata.skip(1),
        0,
        commitments,
        b.header.prev_block_hash,
        Seq::empty(),
        sub_events + crate::engine::failed_events(
            crate::engine::sweep_bundles_failed_spec(s2),
        ),
    );
}

/// The whole coinbase keeps the state invariant.
proof fn lemma_apply_coinbase_preserves_inv(
    s: ChainStateV,
    outputs: Seq<crate::types::TxOutV>,
    height: u32,
    k: int,
    commitments: Seq<(u8, Hash256)>,
    proposals: Seq<(u32, crate::types::SidechainProposalV)>,
    events: Seq<crate::types::WithdrawalBundleEvent>,
)
    requires
        s.inv(),
        crate::engine::apply_coinbase_from(s, outputs, height, k, commitments, proposals, events)
            is Ok,
    ensures
        crate::engine::apply_coinbase_from(
            s,
            outputs,
            height,
            k,
            commitments,
            proposals,
            events,
        )->Ok_0.0.inv(),
    decreases outputs.len() - k,
{
    if k < 0 || k >= outputs.len() {
    } else {
        match crate::codec::parse_coinbase_message_spec(outputs[k].script_pubkey) {
            None => {
                lemma_apply_coinbase_preserves_inv(
                    s,
                    outputs,
                    height,
                    k + 1,
                    commitments,
                    proposals,
                    events,
                );
            },
            Some(msg) => match msg {
                crate::types::CoinbaseMessageV::M1ProposeSidechain { sidechain_number, data } => {
                    lemma_m1_preserves_inv(s, height, sidechain_number, data);
                    let s2 = crate::engine::m1_spec(s, height, sidechain_number, data);
                    let proposals2 = if crate::engine::m1_is_new(s, data) {
                        proposals.push(
                            (
                                ((k % 0x1_0000_0000) as u32),
                                crate::types::SidechainProposalV {
                                    sidechain_number,
                                    data,
                                    vote_count: 0,
                                    proposal_height: height,
                                },
                            ),
                        )
                    } else {
                        proposals
                    };
                    lemma_apply_coinbase_preserves_inv(
                        s2,
                        outputs,
                        height,
                        k + 1,
                        commitments,
                        proposals2,
                        events,
                    );
                },
                crate::types::CoinbaseMessageV::M2AckSidechain { sidechain_number, data_hash } => {
                    lemma_m2_preserves_inv(s, height, sidechain_number, data_hash);
                    lemma_apply_coinbase_preserves_inv(
                        crate::engine::m2_spec(s, height, sidechain_number, data_hash),
                        outputs,
                        height,
                        k + 1,
                        commitments,
                        proposals,
                        events,
                    );
                },
                crate::types::CoinbaseMessageV::M3ProposeBundle { sidechain_number, bundle_txid } => {
                    lemma_m3_preserves_inv(s, sidechain_number, bundle_txid);
                    lemma_apply_coinbase_preserves_inv(
                        crate::engine::m3_spec(s, sidechain_number, bundle_txid)->Ok_0,
                        outputs,
                        height,
                        k + 1,
                        commitments,
                        proposals,
                        events.push(
                            crate::types::WithdrawalBundleEvent {
                                sidechain_id: sidechain_number,
                                m6id: bundle_txid,
                                kind: crate::types::WithdrawalBundleEventKind::Submitted,
                            },
                        ),
                    );
                },
                crate::types::CoinbaseMessageV::M4AckBundles(m4) => {
                    lemma_m4_ack_preserves_inv(s, m4);
                    lemma_apply_coinbase_preserves_inv(
                        crate::engine::m4_ack_spec(s, m4)->Ok_0,
                        outputs,
                        height,
                        k + 1,
                        commitments,
                        proposals,
                        events,
                    );
                },
                crate::types::CoinbaseMessageV::M7BmmAccept {
                    sidechain_number,
                    sidechain_block_hash,
                } => {
                    lemma_apply_coinbase_preserves_inv(
                        s,
                        outputs,
                        height,
                        k + 1,
                        commitments.push((sidechain_number, sidechain_block_hash)),
                        proposals,
                        events,
                    );
                },
            },
        }
    }
}

/// The transaction loop keeps the state invariant.
proof fn lemma_apply_txs_preserves_inv(
    s: ChainStateV,
    txs: Seq<crate::types::TransactionV>,
    k: int,
    commitments: Seq<(u8, Hash256)>,
    prev: Hash256,
    deposits: Seq<crate::types::DepositV>,
    wevents: Seq<crate::types::WithdrawalBundleEvent>,
)
    requires
        s.inv(),
        crate::engine::apply_txs_from(s, txs, k, commitments, prev, deposits, wevents) is Ok,
    ensures
        crate::engine::apply_txs_from(s, txs, k, commitments, prev, deposits, wevents)
            ->Ok_0.0.inv(),
    decreases txs.len() - k,
{
    if k < 0 || k >= txs.len() {
    } else {
        match crate::engine::m5m6_spec(s, txs[k]) {
            Err(_) => {},
            Ok((s2, ev)) => {
                lemma_m5m6_preserves_inv(s, txs[k]);
                let deposits2 = match ev {
                    Some(crate::engine::TxEventV::Deposit(d)) => deposits.push(d),
                    _ => deposits,
                };
                let wevents2 = match ev {
                    Some(crate::engine::TxEventV::Withdrawal { sidechain_id, m6id }) => wevents
                        .push(
                        crate::types::WithdrawalBundleEvent {
                            sidechain_id,
                            m6id,
                            kind: crate::types::WithdrawalBundleEventKind::Succeeded,
                        },
                    ),
                    _ => wevents,
                };
                if crate::engine::m8_spec(txs[k], commitments, prev) is Ok {
                    lemma_apply_txs_preserves_inv(
                        s2,
                        txs,
                        k + 1,
                        commitments,
                        prev,
                        deposits2,
                        wevents2,
                    );
                }
            },
        }
    }
}

/// Connecting a block keeps the sidechain state invariant.
pub proof fn lemma_apply_block_preserves_inv(s: ChainStateV, b: BlockV, height: u32)
    requires
        s.inv(),
        b.txdata.len() >= 1,
        crate::engine::apply_block_spec(s, b, height) is Ok,
    ensures
        crate::engine::apply_block_spec(s, b, height)->Ok_0.0.inv(),
{
    lemma_apply_coinbase_preserves_inv(
        s,
        b.txdata[0].outputs,
        height,
        0,
        Seq::empty(),
        Seq::empty(),
        Seq::empty(),
    );
    let s1 = crate::engine::apply_coinbase_from(
        s,
        b.txdata[0].outputs,
        height,
        0,
        Seq::empty(),
        Seq::empty(),
        Seq::empty(),
    )->Ok_0.0;
    let commitments = crate::engine::apply_coinbase_from(
        s,
        b.txdata[0].outputs,
        height,
        0,
        Seq::empty(),
        Seq::empty(),
        Seq::empty(),
    )->Ok_0.1;
    let sub_events = crate::engine::apply_coinbase_from(
        s,
        b.txdata[0].outputs,
        height,
        0,
        Seq::empty(),
        Seq::empty(),
        Seq::empty(),
    )->Ok_0.3;
    lemma_sweep_proposals_preserves_inv(s1, height);
    let s2 = crate::engine::sweep_proposals_spec(s1, height);
    lemma_sweep_bundles_preserves_inv(s2);
    let s3 = crate::engine::sweep_bundles_state_spec(s2);
    lemma_apply_txs_preserves_inv(
        s3,
        b.txdata.skip(1),
        0,
        commitments,
        b.header.prev_block_hash,
        Seq::empty(),
        sub_events + crate::engine::failed_events(
            crate::engine::sweep_bundles_failed_spec(s2),
        ),
    );
}

/// Connecting a block keeps the whole-store invariant.
pub proof fn lemma_connect_preserves_inv(v: ValidatorV, b: BlockV, height: u32)
    requires
        v.inv(),
        b.txdata.len() >= 1,
        connect_spec(v, b, height) is Ok,
    ensures
        connect_spec(v, b, height)->Ok_0.inv(),
{
    lemma_apply_block_preserves_inv(v.chain, b, height);
    let info = crate::engine::apply_block_spec(v.chain, b, height)->Ok_0.1;
    let bh = b.header.block_hash;
    crate::seqmap::lemma_store_unique(v.block_infos, bh, info);
    let hashes = crate::validator::bmm_hashes_of(info.bmm_commitments);
    crate::seqmap::lemma_store_unique(v.bmm_by_height, height, hashes);
    let stored = crate::seqmap::store_kv(v.bmm_by_height, height, hashes);
    if stored.len() > crate::validator::MAX_BMM_BLOCK_DEPTH {
        crate::seqmap::lemma_remove_unique(stored, crate::validator::min_key_u32(stored));
    }
    if !has_key(v.headers, bh) {
        crate::seqmap::lemma_store_unique(
            v.headers,
            bh,
            crate::types::HeaderInfo {
                block_hash: bh,
                prev_block_hash: b.header.prev_block_hash,
                height,
                work: crate::validator::cumulative_work_of(
                    v.headers,
                    b.header.prev_block_hash,
                    b.header.work,
                ),
            },
        );
    }
}

/// No pending bundle outlives the age bound: all vote counts at most the
/// bound.
pub open spec fn bundles_within_age(pending: Seq<(u8, Seq<crate::types::PendingM6id>)>) -> bool {
    forall|i: int, j: int|
        0 <= i < pending.len() && 0 <= j < pending[i].1.len()
            ==> (#[trigger] pending[i].1[j]).vote_count
            <= crate::engine::WITHDRAWAL_BUNDLE_MAX_AGE
}

/// Every failed bundle's id is collected.
proof fn lemma_failed_ids_complete(list: Seq<crate::types::PendingM6id>, i: int)
    requires
        0 <= i < list.len(),
        crate::engine::bundle_failed(list[i]),
    ensures
        crate::engine::list_failed_ids(list).contains(list[i].m6id),
    decreases list.len(),
{
    if i == list.len() - 1 {
        assert(crate::engine::list_failed_ids(list).last() == list[i].m6id);
    } else {
        lemma_failed_ids_complete(list.drop_last(), i);
        let rest = crate::engine::list_failed_ids(list.drop_last());
        let w = choose|w: int| 0 <= w < rest.len() && rest[w] == list.drop_last()[i].m6id;
        if crate::engine::bundle_failed(list.last()) {
            assert(crate::engine::list_failed_ids(list)[w] == rest[w]);
        } else {
            assert(crate::engine::list_failed_ids(list)[w] == rest[w]);
        }
    }
}

/// Every kept bundle comes from the list and its id was not collected.
proof fn lemma_kept_bundles_elements(
    list: Seq<crate::types::PendingM6id>,
    fids: Seq<Hash256>,
    j: int,
)
    requires
        0 <= j < crate::engine::kept_bundles(list, fids).len(),
    ensures
        exists|i: int|
            0 <= i < list.len() && list[i] == crate::engine::kept_bundles(list, fids)[j],
        !fids.contains(crate::engine::kept_bundles(list, fids)[j].m6id),
    decreases list.len(),
{
    let kept = crate::engine::kept_bundles(list, fids);
    let rest = crate::engine::kept_bundles(list.drop_last(), fids);
    if !fids.contains(list.last().m6id) && j == kept.len() - 1 {
        assert(list[list.len() - 1] == kept[j]);
    } else {
        lemma_kept_bundles_elements(list.drop_last(), fids, j);
        let i = choose|i: int| 0 <= i < list.drop_last().len() && list.drop_last()[i] == rest[j];
        assert(list[i] == kept[j]);
    }
}

/// The bundle expiry sweep leaves only bundles within the age bound.
proof fn lemma_sweep_bundles_bounded(s: ChainStateV)
    ensures
        bundles_within_age(crate::engine::sweep_bundles_state_spec(s).pending),
{
    let p2 = crate::engine::sweep_bundles_state_spec(s).pending;
    assert forall|i: int, j: int|
        0 <= i < p2.len() && 0 <= j < p2[i].1.len() implies (#[trigger] p2[i].1[j]).vote_count
        <= crate::engine::WITHDRAWAL_BUNDLE_MAX_AGE by {
        let list = s.pending[i].1;
        let fids = crate::engine::list_failed_ids(list);
        assert(p2[i].1 == crate::engine::kept_bundles(list, fids));
        lemma_kept_bundles_elements(list, fids, j);
        let w = choose|w: int|
            0 <= w < list.len() && list[w] == crate::engine::kept_bundles(list, fids)[j];
        if crate::engine::bundle_failed(list[w]) {
            lemma_failed_ids_complete(list, w);
        }
    }
}

/// Storing a bounded list keeps every list bounded.
proof fn lemma_store_pending_bounded(
    pending: Seq<(u8, Seq<crate::types::PendingM6id>)>,
    sn: u8,
    list: Seq<crate::types::PendingM6id>,
)
    requires
        bundles_within_age(pending),
        forall|j: int|
            0 <= j < list.len() ==> (#[trigger] list[j]).vote_count
                <= crate::engine::WITHDRAWAL_BUNDLE_MAX_AGE,
    ensures
        bundles_within_age(crate::seqmap::store_kv(pending, sn, list)),
{
    lemma_lookup_has_key(pending, sn);
    if has_key(pending, sn) {
        lemma_first_match_exists(pending, sn);
        let i = choose|i: int|
            0 <= i < pending.len() && pending[i].0 == sn && (forall|j: int|
                0 <= j < i ==> pending[j].0 != sn);
        crate::seqmap::lemma_store_at(pending, sn, list, i);
    } else {
        crate::seqmap::lemma_store_absent(pending, sn, list);
    }
}

/// The transaction loop keeps every pending list within the age bound.
proof fn lemma_apply_txs_keeps_bounded(
    s: ChainStateV,
    txs: Seq<crate::types::TransactionV>,
    k: int,
    commitments: Seq<(u8, Hash256)>,
    prev: Hash256,
    deposits: Seq<crate::types::DepositV>,
    wevents: Seq<crate::types::WithdrawalBundleEvent>,
)
    requires
        bundles_within_age(s.pending),
        crate::engine::apply_txs_from(s, txs, k, commitments, prev, deposits, wevents) is Ok,
    ensures
        bundles_within_age(
            crate::engine::apply_txs_from(s, txs, k, commitments, prev, deposits, wevents)
                ->Ok_0.0.pending,
        ),
    decreases txs.len() - k,
{
    if k < 0 || k >= txs.len() {
    } else {
        match crate::engine::m5m6_spec(s, txs[k]) {
            Err(_) => {},
            Ok((s2, ev)) => {
                assert(bundles_within_age(s2.pending)) by {
                    let tx = txs[k];
                    if tx.outputs.len() > 0 && crate::codec::parse_op_drivechain_spec(
                        tx.outputs[0].script_pubkey,
                    ) is Some {
                        let sn = crate::codec::parse_op_drivechain_spec(
                            tx.outputs[0].script_pubkey,
                        )->Some_0;
                        let old_ctip = lookup(s.ctips, sn);
                        let old_total = if old_ctip is Some {
                            old_ctip->Some_0.value
                        } else {
                            0u64
                        };
                        if tx.outputs[0].value < old_total {
                            let m6id = crate::digest::m6id_spec(tx.raw, old_total);
                            let list = lookup(s.pending, sn)->Some_0;
                            let kept = crate::engine::kept_bundles(list, seq![m6id]);
                            assert(forall|j: int|
                                0 <= j < kept.len() ==> (#[trigger] kept[j]).vote_count
                                    <= crate::engine::WITHDRAWAL_BUNDLE_MAX_AGE) by {
                                assert forall|j: int| 0 <= j < kept.len() implies (
                                #[trigger] kept[j]).vote_count
                                    <= crate::engine::WITHDRAWAL_BUNDLE_MAX_AGE by {
                                    lemma_kept_bundles_elements(list, seq![m6id], j);
                                    let w = choose|w: int|
                                        0 <= w < list.len() && list[w] == kept[j];
                                    lemma_lookup_has_key(s.pending, sn);
                                    lemma_first_match_exists(s.pending, sn);
                                    let i = choose|i: int|
                                        0 <= i < s.pending.len() && s.pending[i].0 == sn && (
                                        forall|j2: int| 0 <= j2 < i ==> s.pending[j2].0 != sn);
                                    lemma_lookup_at(s.pending, sn, i);
                                    assert(s.pending[i].1[w].vote_count
                                        <= crate::engine::WITHDRAWAL_BUNDLE_MAX_AGE);
                                }
                            }
                            lemma_store_pending_bounded(s.pending, sn, kept);
                        }
                    }
                }
                if crate::engine::m8_spec(txs[k], commitments, prev) is Ok {
                    lemma_apply_txs_keeps_bounded(
                        s2,
                        txs,
                        k + 1,
                        commitments,
                        prev,
                        match ev {
                            Some(crate::engine::TxEventV::Deposit(d)) => deposits.push(d),
                            _ => deposits,
                        },
                        match ev {
                            Some(crate::engine::TxEventV::Withdrawal { sidechain_id, m6id }) => {
                                wevents.push(
                                    crate::types::WithdrawalBundleEvent {
                                        sidechain_id,
                                        m6id,
                                        kind: crate::types::WithdrawalBundleEventKind::Succeeded,
                                    },
                                )
                            },
                            _ => wevents,
                        },
                    );
                }
            },
        }
    }
}

/// After a block is connected, no pending bundle's vote count exceeds the
/// bundle age bound: the expiry sweep removes the aged, and what follows
/// only removes more.
pub proof fn lemma_connected_bundles_within_age(s: ChainStateV, b: BlockV, height: u32)
    requires
        b.txdata.len() >= 1,
        crate::engine::apply_block_spec(s, b, height) is Ok,
    ensures
        bundles_within_age(crate::engine::apply_block_spec(s, b, height)->Ok_0.0.pending),
{
    let s1 = crate::engine::apply_coinbase_from(
        s,
        b.txdata[0].outputs,
        height,
        0,
        Seq::empty(),
        Seq::empty(),
        Seq::empty(),
    )->Ok_0.0;
    let commitments = crate::engine::apply_coinbase_from(
        s,
        b.txdata[0].outputs,
        height,
        0,
        Seq::empty(),
        Seq::empty(),
        Seq::empty(),
    )->Ok_0.1;
    let sub_events = crate::engine::apply_coinbase_from(
        s,
        b.txdata[0].outputs,
        height,
        0,
        Seq::empty(),
        Seq::empty(),
        Seq::empty(),
    )->Ok_0.3;
    let s2 = crate::engine::sweep_proposals_spec(s1, height);
    lemma_sweep_bundles_bounded(s2);
    let s3 = crate::engine::sweep_bundles_state_spec(s2);
    lemma_apply_txs_keeps_bounded(
        s3,
        b.txdata.skip(1),
        0,
        commitments,
        b.header.prev_block_hash,
        Seq::empty(),
        sub_events + crate::engine::failed_events(
            crate::engine::sweep_bundles_failed_spec(s2),
        ),
    );
}

} // verus!
