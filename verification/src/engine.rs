//! The vote, activation and withdrawal engines: how each coinbase message
//! and each transaction moves the sidechain state. Every handler's effect
//! is pinned to a spec-level transition function, so connecting a block is
//! a mathematical function of the prior state and the block.

use vstd::prelude::*;

use crate::bytes::dup_bytes;
use crate::digest::{sha256d, sha256d_spec};
use crate::seqmap::{lookup, remove_kv, store_kv};
use crate::state::{ChainState, ChainStateV};
use crate::types::{Hash256, PendingM6id, Sidechain, SidechainProposal, SidechainProposalV,
    SidechainV};

verus! {

/// A pending withdrawal bundle older than this many net upvotes has failed.
pub const WITHDRAWAL_BUNDLE_MAX_AGE: u16 = 10;

/// Net upvotes a bundle needs before its withdrawal may be included.
pub const WITHDRAWAL_BUNDLE_INCLUSION_THRESHOLD: u16 = WITHDRAWAL_BUNDLE_MAX_AGE / 2;

/// How long a proposal for an occupied slot may gather acks.
pub const USED_SIDECHAIN_SLOT_PROPOSAL_MAX_AGE: u16 = WITHDRAWAL_BUNDLE_MAX_AGE;

/// Acks a proposal for an occupied slot must exceed to activate.
pub const USED_SIDECHAIN_SLOT_ACTIVATION_THRESHOLD: u16 = USED_SIDECHAIN_SLOT_PROPOSAL_MAX_AGE
    / 2;

/// How long a proposal for a free slot may gather acks.
pub const UNUSED_SIDECHAIN_SLOT_PROPOSAL_MAX_AGE: u16 = 10;

/// Missed acks a proposal for a free slot may afford.
pub const UNUSED_SIDECHAIN_SLOT_ACTIVATION_MAX_FAILS: u16 = 5;

/// Acks a proposal for a free slot must exceed to activate.
pub const UNUSED_SIDECHAIN_SLOT_ACTIVATION_THRESHOLD: u16 = UNUSED_SIDECHAIN_SLOT_PROPOSAL_MAX_AGE
    - UNUSED_SIDECHAIN_SLOT_ACTIVATION_MAX_FAILS;

/// Why a block could not be connected.
#[derive(Clone, Copy, Debug, PartialEq, Eq, Structural)]
pub enum ConnectBlockError {
    /// A bundle was proposed for a slot with no active sidechain.
    InactiveSidechain { sidechain_number: u8 },
    /// A treasury transaction does not spend the slot's recorded Ctip.
    OldCtipUnspent { sidechain_number: u8 },
    /// A withdrawal names no pending bundle with enough votes.
    InvalidM6,
    /// A BMM request names a commitment this block does not carry.
    NotAcceptedByMiners,
    /// A BMM request names the wrong previous mainchain block.
    BmmRequestExpired,
    /// Two BMM commitments target one slot in the same block.
    MultipleBmmBlocks { sidechain_number: u8 },
    /// An ack-bundles form whose tallying rules are not laid down.
    UnsupportedM4AckForm,
}

/// A count raised by one, held at its ceiling.
pub open spec fn saturating_inc_u16(x: u16) -> u16 {
    if x == 0xFFFF {
        x
    } else {
        (x + 1) as u16
    }
}

/// What proposing a sidechain does: nothing when the description hash is
/// already on file (so miners cannot reset a running vote), else a fresh
/// proposal with no votes.
pub open spec fn m1_spec(s: ChainStateV, height: u32, sidechain_number: u8, data: Seq<u8>)
    -> ChainStateV {
    let data_hash = sha256d_spec(data);
    if lookup(s.proposals, data_hash) is Some {
        s
    } else {
        s.with_proposals(
            store_kv(
                s.proposals,
                data_hash,
                SidechainProposalV {
                    sidechain_number,
                    data,
                    vote_count: 0,
                    proposal_height: height,
                },
            ),
        )
    }
}

/// Whether proposing this description would write a new record.
pub open spec fn m1_is_new(s: ChainStateV, data: Seq<u8>) -> bool {
    lookup(s.proposals, sha256d_spec(data)) is None
}

/// Whether an acked proposal activates: an occupied slot demands the higher
/// threshold, and in either case the proposal must still be young enough.
pub open spec fn m2_activates(
    used: bool,
    vote_count: u16,
    proposal_height: u32,
    height: u32,
) -> bool {
    (used && vote_count > USED_SIDECHAIN_SLOT_ACTIVATION_THRESHOLD && height <= proposal_height
        + USED_SIDECHAIN_SLOT_PROPOSAL_MAX_AGE) || (!used && vote_count
        > UNUSED_SIDECHAIN_SLOT_ACTIVATION_THRESHOLD && height <= proposal_height
        + UNUSED_SIDECHAIN_SLOT_PROPOSAL_MAX_AGE)
}

/// What acking a proposal does: nothing when no proposal stands under the
/// hash or the slot numbers disagree; else one more vote, and, past the
/// slot's threshold in time, the proposal moves to the activated slots.
pub open spec fn m2_spec(s: ChainStateV, height: u32, sidechain_number: u8, data_hash: Hash256)
    -> ChainStateV {
    match lookup(s.proposals, data_hash) {
        None => s,
        Some(p) => {
            if p.sidechain_number != sidechain_number {
                s
            } else {
                let p2 = SidechainProposalV {
                    vote_count: saturating_inc_u16(p.vote_count),
                    ..p
                };
                let props2 = store_kv(s.proposals, data_hash, p2);
                let used = lookup(s.active, sidechain_number) is Some;
                if m2_activates(used, p2.vote_count, p.proposal_height, height) {
                    let sc = SidechainV {
                        sidechain_number,
                        data: p.data,
                        vote_count: p2.vote_count,
                        proposal_height: p.proposal_height,
                        activation_height: height,
                    };
                    ChainStateV {
                        proposals: remove_kv(props2, data_hash),
                        active: store_kv(s.active, sidechain_number, sc),
                        ..s
                    }
                } else {
                    s.with_proposals(props2)
                }
            }
        },
    }
}

/// What proposing a withdrawal bundle does: refused for a slot with no
/// active sidechain; else the bundle joins the slot's pending list with no
/// votes.
pub open spec fn m3_spec(s: ChainStateV, sidechain_number: u8, m6id: Hash256) -> Result<
    ChainStateV,
    ConnectBlockError,
> {
    if lookup(s.active, sidechain_number) is None {
        Err(ConnectBlockError::InactiveSidechain { sidechain_number })
    } else {
        let list = match lookup(s.pending, sidechain_number) {
            Some(l) => l,
            None => Seq::empty(),
        };
        Ok(
            s.with_pending(
                store_kv(
                    s.pending,
                    sidechain_number,
                    list.push(PendingM6id { m6id, vote_count: 0 }),
                ),
            ),
        )
    }
}

/// One slot's pending list after an alarm: every vote count down one,
/// stopping at zero.
pub open spec fn alarm_list(list: Seq<PendingM6id>) -> Seq<PendingM6id> {
    list.map_values(
        |b: PendingM6id| PendingM6id {
            m6id: b.m6id,
            vote_count: if b.vote_count > 0 {
                (b.vote_count - 1) as u16
            } else {
                0
            },
        },
    )
}

/// What one slot's vote does to its pending list.
pub open spec fn m4_vote_one_spec(s: ChainStateV, sidechain_number: u8, vote: u16)
    -> ChainStateV {
    if vote == crate::codec::ABSTAIN_TWO_BYTES {
        s
    } else {
        match lookup(s.pending, sidechain_number) {
            None => s,
            Some(list) => {
                let list2 = if vote == crate::codec::ALARM_TWO_BYTES {
                    alarm_list(list)
                } else if vote < list.len() {
                    list.update(
                        vote as int,
                        PendingM6id {
                            m6id: list[vote as int].m6id,
                            vote_count: saturating_inc_u16(list[vote as int].vote_count),
                        },
                    )
                } else {
                    list
                };
                s.with_pending(store_kv(s.pending, sidechain_number, list2))
            },
        }
    }
}

/// What the votes from slot index `k` on do.
pub open spec fn m4_votes_from_spec(s: ChainStateV, upvotes: Seq<u16>, k: int) -> ChainStateV
    decreases upvotes.len() - k,
{
    if k < 0 || k >= upvotes.len() {
        s
    } else {
        m4_votes_from_spec(
            m4_vote_one_spec(s, (k % 256) as u8, upvotes[k]),
            upvotes,
            k + 1,
        )
    }
}

/// What a full vote list does, slot by slot.
pub open spec fn m4_votes_spec(s: ChainStateV, upvotes: Seq<u16>) -> ChainStateV {
    m4_votes_from_spec(s, upvotes, 0)
}

/// Proposes a sidechain slot. Returns whether the proposal is new.
pub fn handle_m1_propose_sidechain(
    state: &mut ChainState,
    proposal_height: u32,
    sidechain_number: u8,
    data: Vec<u8>,
) -> (r: bool)
    ensures
        final(state)@ == m1_spec(old(state)@, proposal_height, sidechain_number, data@),
        r == m1_is_new(old(state)@, data@),
{
    let data_hash = sha256d(&data);
    if state.try_get_proposal(&data_hash).is_some() {
        return false;
    }
    let proposal = SidechainProposal { sidechain_number, data, vote_count: 0, proposal_height };
    state.put_proposal(data_hash, proposal);
    true
}

/// Acks a sidechain proposal, activating it when its slot's condition is
/// met.
pub fn handle_m2_ack_sidechain(
    state: &mut ChainState,
    height: u32,
    sidechain_number: u8,
    data_hash: Hash256,
)
    ensures
        final(state)@ == m2_spec(old(state)@, height, sidechain_number, data_hash),
{
    let (data, vote_count, proposal_height) = match state.try_get_proposal(&data_hash) {
        None => {
            return ;
        },
        Some(p) => {
            if p.sidechain_number != sidechain_number {
                return ;
            }
            (dup_bytes(&p.data), p.vote_count, p.proposal_height)
        },
    };
    let new_count: u16 = if vote_count == 0xFFFF {
        vote_count
    } else {
        vote_count + 1
    };
    let updated = SidechainProposal {
        sidechain_number,
        data: dup_bytes(&data),
        vote_count: new_count,
        proposal_height,
    };
    state.put_proposal(data_hash, updated);
    let used = state.try_get_active(sidechain_number).is_some();
    let within_used: bool = (height as u64) <= (proposal_height as u64)
        + (USED_SIDECHAIN_SLOT_PROPOSAL_MAX_AGE as u64);
    let within_unused: bool = (height as u64) <= (proposal_height as u64)
        + (UNUSED_SIDECHAIN_SLOT_PROPOSAL_MAX_AGE as u64);
    let activated = (used && new_count > USED_SIDECHAIN_SLOT_ACTIVATION_THRESHOLD && within_used)
        || (!used && new_count > UNUSED_SIDECHAIN_SLOT_ACTIVATION_THRESHOLD && within_unused);
    if activated {
        let sidechain = Sidechain {
            sidechain_number,
            data,
            vote_count: new_count,
            proposal_height,
            activation_height: height,
        };
        state.put_active(sidechain_number, sidechain);
        state.delete_proposal(&data_hash);
    }
}

/// Proposes a withdrawal bundle for an active slot.
pub fn handle_m3_propose_bundle(
    state: &mut ChainState,
    sidechain_number: u8,
    m6id: Hash256,
) -> (r: Result<(), ConnectBlockError>)
    ensures
        match m3_spec(old(state)@, sidechain_number, m6id) {
            Ok(s2) => r is Ok && final(state)@ == s2,
            Err(e) => r == Err::<(), _>(e) && final(state)@ == old(state)@,
        },
{
    if state.try_get_active(sidechain_number).is_none() {
        return Err(ConnectBlockError::InactiveSidechain { sidechain_number });
    }
    let mut list: Vec<PendingM6id> = match state.try_get_pending(sidechain_number) {
        Some(l) => copy_bundles(l),
        None => Vec::new(),
    };
    list.push(PendingM6id { m6id, vote_count: 0 });
    proof {
        if lookup(old(state)@.pending, sidechain_number) is None {
            assert(list@ =~= Seq::<PendingM6id>::empty().push(
                PendingM6id { m6id, vote_count: 0 },
            ));
        }
    }
    state.put_pending(sidechain_number, list);
    Ok(())
}

/// A fresh vector with the same bundles.
pub fn copy_bundles(v: &Vec<PendingM6id>) -> (r: Vec<PendingM6id>)
    ensures
        r@ == v@,
{
    let mut r: Vec<PendingM6id> = Vec::new();
    let mut i: usize = 0;
    while i < v.len()
        invariant
            i <= v@.len(),
            r@ == v@.subrange(0, i as int),
        decreases v@.len() - i,
    {
        r.push(v[i]);
        proof {
            assert(r@ =~= v@.subrange(0, i + 1));
        }
        i += 1;
    }
    proof {
        assert(r@ =~= v@);
    }
    r
}

/// Applies one slot's vote to its pending bundles.
fn handle_m4_vote_one(state: &mut ChainState, sidechain_number: u8, vote: u16)
    ensures
        final(state)@ == m4_vote_one_spec(old(state)@, sidechain_number, vote),
{
    if vote == crate::codec::ABSTAIN_TWO_BYTES {
        return ;
    }
    let list = match state.try_get_pending(sidechain_number) {
        None => {
            return ;
        },
        Some(l) => copy_bundles(l),
    };
    let ghost list0 = list@;
    let mut list = list;
    if vote == crate::codec::ALARM_TWO_BYTES {
        let mut i: usize = 0;
        while i < list.len()
            invariant
                i <= list@.len(),
                list@.len() == list0.len(),
                forall|j: int| 0 <= j < i ==> list@[j] == alarm_list(list0)[j],
                forall|j: int| i <= j < list0.len() ==> list@[j] == list0[j],
            decreases list@.len() - i,
        {
            let b = list[i];
            let nc: u16 = if b.vote_count > 0 {
                b.vote_count - 1
            } else {
                0
            };
            let slot = &mut list[i];
            *slot = PendingM6id { m6id: b.m6id, vote_count: nc };
            i += 1;
        }
        proof {
            assert(list@ =~= alarm_list(list0));
        }
    } else if (vote as usize) < list.len() {
        let b = list[vote as usize];
        let nc: u16 = if b.vote_count == 0xFFFF {
            b.vote_count
        } else {
            b.vote_count + 1
        };
        let slot = &mut list[vote as usize];
        *slot = PendingM6id { m6id: b.m6id, vote_count: nc };
    }
    state.put_pending(sidechain_number, list);
}

/// Applies a vote list, one slot after another.
pub fn handle_m4_votes(state: &mut ChainState, upvotes: &Vec<u16>)
    ensures
        final(state)@ == m4_votes_spec(old(state)@, upvotes@),
{
    let mut i: usize = 0;
    while i < upvotes.len()
        invariant
            i <= upvotes@.len(),
            m4_votes_from_spec(state@, upvotes@, i as int) == m4_votes_from_spec(
                old(state)@,
                upvotes@,
                0,
            ),
        decreases upvotes@.len() - i,
    {
        let sidechain_number: u8 = (i % 256) as u8;
        handle_m4_vote_one(state, sidechain_number, upvotes[i]);
        i += 1;
    }
}

/// Applies an ack-bundles message. The one-byte form widens each vote to
/// the two-byte representation; the repeat-previous and leading-by-50 forms
/// have no laid-down tallying rules and refuse the block.
pub fn handle_m4_ack_bundles(state: &mut ChainState, m4: &crate::types::M4AckBundles) -> (r:
    Result<(), ConnectBlockError>)
    ensures
        match m4_ack_spec(old(state)@, m4@) {
            Ok(s2) => r is Ok && final(state)@ == s2,
            Err(e) => r == Err::<(), _>(e) && final(state)@ == old(state)@,
        },
{
    match m4 {
        crate::types::M4AckBundles::RepeatPrevious => Err(
            ConnectBlockError::UnsupportedM4AckForm,
        ),
        crate::types::M4AckBundles::LeadingBy50 => Err(ConnectBlockError::UnsupportedM4AckForm),
        crate::types::M4AckBundles::OneByte { upvotes } => {
            let mut wide: Vec<u16> = Vec::new();
            let mut i: usize = 0;
            while i < upvotes.len()
                invariant
                    i <= upvotes@.len(),
                    wide@ == upvotes@.subrange(0, i as int).map_values(|v: u8| v as u16),
                decreases upvotes@.len() - i,
            {
                wide.push(upvotes[i] as u16);
                proof {
                    assert(wide@ =~= upvotes@.subrange(0, i + 1).map_values(|v: u8| v as u16));
                }
                i += 1;
            }
            proof {
                assert(upvotes@.subrange(0, upvotes@.len() as int) =~= upvotes@);
            }
            handle_m4_votes(state, &wide);
            Ok(())
        },
        crate::types::M4AckBundles::TwoBytes { upvotes } => {
            handle_m4_votes(state, upvotes);
            Ok(())
        },
    }
}

/// Whether a proposal has aged out at `height`, against the given slots:
/// an occupied slot allows the shorter age, a free one the longer.
pub open spec fn proposal_failed(
    active: Seq<(u8, SidechainV)>,
    p: SidechainProposalV,
    height: u32,
) -> bool {
    if lookup(active, p.sidechain_number) is Some {
        height > p.proposal_height + USED_SIDECHAIN_SLOT_PROPOSAL_MAX_AGE
    } else {
        height > p.proposal_height + UNUSED_SIDECHAIN_SLOT_PROPOSAL_MAX_AGE
    }
}

/// The proposals that survive the expiry sweep at `height`, in order.
pub open spec fn kept_proposals(
    props: Seq<(Hash256, SidechainProposalV)>,
    active: Seq<(u8, SidechainV)>,
    height: u32,
) -> Seq<(Hash256, SidechainProposalV)>
    decreases props.len(),
{
    if props.len() == 0 {
        props
    } else {
        let rest = kept_proposals(props.drop_last(), active, height);
        if proposal_failed(active, props.last().1, height) {
            rest
        } else {
            rest.push(props.last())
        }
    }
}

/// What the proposal expiry sweep does.
pub open spec fn sweep_proposals_spec(s: ChainStateV, height: u32) -> ChainStateV {
    s.with_proposals(kept_proposals(s.proposals, s.active, height))
}

/// Deletes every proposal that has aged out at `height`.
pub fn handle_failed_sidechain_proposals(state: &mut ChainState, height: u32)
    ensures
        final(state)@ == sweep_proposals_spec(old(state)@, height),
{
    let ghost props0 = state@.proposals;
    let ghost active0 = state@.active;
    let mut kept: Vec<(Hash256, SidechainProposal)> = Vec::new();
    let mut i: usize = 0;
    while i < state.proposals.len()
        invariant
            i <= state.proposals@.len(),
            state@.proposals == props0,
            state@.active == active0,
            kept@.map_values(|p: (Hash256, SidechainProposal)| (p.0, p.1@)) == kept_proposals(
                props0.take(i as int),
                active0,
                height,
            ),
        decreases state.proposals@.len() - i,
    {
        let pair = &state.proposals[i];
        let used = state.try_get_active(pair.1.sidechain_number).is_some();
        let max_age: u64 = if used {
            USED_SIDECHAIN_SLOT_PROPOSAL_MAX_AGE as u64
        } else {
            UNUSED_SIDECHAIN_SLOT_PROPOSAL_MAX_AGE as u64
        };
        let failed = (height as u64) > (pair.1.proposal_height as u64) + max_age;
        proof {
            assert(props0[i as int].1 == state.proposals@[i as int].1@);
            assert(failed == proposal_failed(active0, props0[i as int].1, height));
            assert(props0.take(i + 1).drop_last() =~= props0.take(i as int));
            assert(props0.take(i + 1).last() == props0[i as int]);
        }
        if !failed {
            let copy = (pair.0, pair.1.duplicate());
            kept.push(copy);
        }
        proof {
            assert(kept@.map_values(|p: (Hash256, SidechainProposal)| (p.0, p.1@))
                =~= kept_proposals(props0.take(i + 1), active0, height));
        }
        i += 1;
    }
    proof {
        assert(props0.take(props0.len() as int) =~= props0);
    }
    state.proposals = kept;
    proof {
        assert(state@ =~= old(state)@.with_proposals(kept_proposals(props0, active0, height)));
    }
}

/// Whether a pending bundle has failed: its vote count outran the bundle
/// age bound.
pub open spec fn bundle_failed(b: PendingM6id) -> bool {
    b.vote_count > WITHDRAWAL_BUNDLE_MAX_AGE
}

/// The ids of a list's failed bundles, in order.
pub open spec fn list_failed_ids(list: Seq<PendingM6id>) -> Seq<Hash256>
    decreases list.len(),
{
    if list.len() == 0 {
        Seq::empty()
    } else {
        let rest = list_failed_ids(list.drop_last());
        if bundle_failed(list.last()) {
            rest.push(list.last().m6id)
        } else {
            rest
        }
    }
}

/// A list without every bundle whose id failed, in order. A bundle with a
/// failed id leaves even when its own count is low.
pub open spec fn kept_bundles(list: Seq<PendingM6id>, failed_ids: Seq<Hash256>) -> Seq<
    PendingM6id,
>
    decreases list.len(),
{
    if list.len() == 0 {
        list
    } else {
        let rest = kept_bundles(list.drop_last(), failed_ids);
        if failed_ids.contains(list.last().m6id) {
            rest
        } else {
            rest.push(list.last())
        }
    }
}

/// `acc` extended by `x` unless already held: failures announce once.
pub open spec fn insert_unique(acc: Seq<(u8, Hash256)>, x: (u8, Hash256)) -> Seq<(u8, Hash256)> {
    if acc.contains(x) {
        acc
    } else {
        acc.push(x)
    }
}

/// `acc` extended by one slot's failed bundles, in list order.
pub open spec fn slot_failed_pairs(
    acc: Seq<(u8, Hash256)>,
    sidechain_number: u8,
    list: Seq<PendingM6id>,
) -> Seq<(u8, Hash256)>
    decreases list.len(),
{
    if list.len() == 0 {
        acc
    } else {
        let acc2 = if bundle_failed(list[0]) {
            insert_unique(acc, (sidechain_number, list[0].m6id))
        } else {
            acc
        };
        slot_failed_pairs(acc2, sidechain_number, list.skip(1))
    }
}

/// `acc` extended by the failed bundles of the slots from `k` on.
pub open spec fn all_failed_pairs_from(
    acc: Seq<(u8, Hash256)>,
    pending: Seq<(u8, Seq<PendingM6id>)>,
    k: int,
) -> Seq<(u8, Hash256)>
    decreases pending.len() - k,
{
    if k < 0 || k >= pending.len() {
        acc
    } else {
        all_failed_pairs_from(
            slot_failed_pairs(acc, pending[k].0, pending[k].1),
            pending,
            k + 1,
        )
    }
}

/// What the bundle expiry sweep does to the pending lists.
pub open spec fn sweep_bundles_state_spec(s: ChainStateV) -> ChainStateV {
    s.with_pending(
        s.pending.map_values(
            |pr: (u8, Seq<PendingM6id>)| (pr.0, kept_bundles(pr.1, list_failed_ids(pr.1))),
        ),
    )
}

/// The (slot, id) pairs the bundle expiry sweep reports, each once.
pub open spec fn sweep_bundles_failed_spec(s: ChainStateV) -> Seq<(u8, Hash256)> {
    all_failed_pairs_from(Seq::empty(), s.pending, 0)
}

/// Whether a vector of identifiers holds `x`.
fn contains_hash(v: &Vec<Hash256>, x: &Hash256) -> (r: bool)
    ensures
        r == v@.contains(*x),
{
    let mut i: usize = 0;
    while i < v.len()
        invariant
            i <= v@.len(),
            forall|j: int| 0 <= j < i ==> v@[j] != *x,
        decreases v@.len() - i,
    {
        if v[i].w0 == x.w0 && v[i].w1 == x.w1 && v[i].w2 == x.w2 && v[i].w3 == x.w3 {
            assert(v@[i as int] == *x);
            return true;
        }
        i += 1;
    }
    false
}

/// Whether a vector of (slot, id) pairs holds `x`.
fn contains_pair(v: &Vec<(u8, Hash256)>, x: (u8, Hash256)) -> (r: bool)
    ensures
        r == v@.contains(x),
{
    let mut i: usize = 0;
    while i < v.len()
        invariant
            i <= v@.len(),
            forall|j: int| 0 <= j < i ==> v@[j] != x,
        decreases v@.len() - i,
    {
        if v[i].0 == x.0 && v[i].1 == x.1 {
            assert(v@[i as int] == x);
            return true;
        }
        i += 1;
    }
    false
}

/// Sweeps every slot's pending bundles: a bundle whose vote count outran
/// the age bound leaves its list, and each failed (slot, id) pair is
/// reported once, slot after slot in table order.
pub fn handle_failed_m6ids(state: &mut ChainState) -> (failed: Vec<(u8, Hash256)>)
    ensures
        final(state)@ == sweep_bundles_state_spec(old(state)@),
        failed@ == sweep_bundles_failed_spec(old(state)@),
{
    let ghost pending0 = state@.pending;
    let mut failed: Vec<(u8, Hash256)> = Vec::new();
    let mut updated: Vec<(u8, Vec<PendingM6id>)> = Vec::new();
    let mut k: usize = 0;
    while k < state.pending.len()
        invariant
            k <= state.pending@.len(),
            state@.pending == pending0,
            all_failed_pairs_from(failed@, pending0, k as int) == all_failed_pairs_from(
                Seq::empty(),
                pending0,
                0,
            ),
            updated@.len() == k,
            forall|j: int| 0 <= j < k ==> (#[trigger] updated@[j]).0 == pending0[j].0
                && updated@[j].1@ == kept_bundles(pending0[j].1, list_failed_ids(pending0[j].1)),
        decreases state.pending@.len() - k,
    {
        let sidechain_number = state.pending[k].0;
        let list = &state.pending[k].1;
        let ghost listv = list@;
        proof {
            assert(pending0[k as int] == (sidechain_number, listv));
        }
        // The slot's failed ids, in order.
        let mut fids: Vec<Hash256> = Vec::new();
        let mut j: usize = 0;
        while j < list.len()
            invariant
                j <= listv.len(),
                list@ == listv,
                fids@ == list_failed_ids(listv.take(j as int)),
            decreases listv.len() - j,
        {
            proof {
                assert(listv.take(j + 1).drop_last() =~= listv.take(j as int));
                assert(listv.take(j + 1).last() == listv[j as int]);
            }
            if list[j].vote_count > WITHDRAWAL_BUNDLE_MAX_AGE {
                fids.push(list[j].m6id);
            }
            j += 1;
        }
        proof {
            assert(listv.take(listv.len() as int) =~= listv);
        }
        // What stays in the slot's list.
        let mut kept: Vec<PendingM6id> = Vec::new();
        let mut j: usize = 0;
        while j < list.len()
            invariant
                j <= listv.len(),
                list@ == listv,
                fids@ == list_failed_ids(listv),
                kept@ == kept_bundles(listv.take(j as int), list_failed_ids(listv)),
            decreases listv.len() - j,
        {
            proof {
                assert(listv.take(j + 1).drop_last() =~= listv.take(j as int));
                assert(listv.take(j + 1).last() == listv[j as int]);
            }
            if !contains_hash(&fids, &list[j].m6id) {
                kept.push(list[j]);
            }
            j += 1;
        }
        proof {
            assert(listv.take(listv.len() as int) =~= listv);
        }
        // Report this slot's failures, each pair once.
        let mut j: usize = 0;
        let ghost failed_at_slot = failed@;
        while j < list.len()
            invariant
                j <= listv.len(),
                list@ == listv,
                slot_failed_pairs(failed@, sidechain_number, listv.skip(j as int))
                    == slot_failed_pairs(failed_at_slot, sidechain_number, listv),
            decreases listv.len() - j,
        {
            proof {
                assert(listv.skip(j as int)[0] == listv[j as int]);
                assert(listv.skip(j as int).skip(1) =~= listv.skip(j + 1));
            }
            if list[j].vote_count > WITHDRAWAL_BUNDLE_MAX_AGE {
                if !contains_pair(&failed, (sidechain_number, list[j].m6id)) {
                    failed.push((sidechain_number, list[j].m6id));
                }
            }
            j += 1;
        }
        proof {
            assert(listv.skip(listv.len() as int).len() == 0);
        }
        proof {
            assert(kept@ == kept_bundles(listv, list_failed_ids(listv)));
        }
        updated.push((sidechain_number, kept));
        k += 1;
    }
    state.pending = updated;
    proof {
        let target = sweep_bundles_state_spec(old(state)@);
        assert forall|j: int| 0 <= j < pending0.len() implies state@.pending[j]
            == target.pending[j] by {
            assert(state@.pending[j] == (updated@[j].0, updated@[j].1@));
            assert(target.pending[j] == (pending0[j].0, kept_bundles(
                pending0[j].1,
                list_failed_ids(pending0[j].1),
            )));
        }
        assert(state@.pending =~= target.pending);
        assert(state@ =~= target);
    }
    failed
}

/// What a treasury transaction yields besides its state change.
pub enum TxEvent {
    Deposit(crate::types::Deposit),
    Withdrawal { sidechain_id: u8, m6id: Hash256 },
}

pub ghost enum TxEventV {
    Deposit(crate::types::DepositV),
    Withdrawal { sidechain_id: u8, m6id: Hash256 },
}

impl View for TxEvent {
    type V = TxEventV;

    open spec fn view(&self) -> TxEventV {
        match self {
            TxEvent::Deposit(d) => TxEventV::Deposit(d@),
            TxEvent::Withdrawal { sidechain_id, m6id } => TxEventV::Withdrawal {
                sidechain_id: *sidechain_id,
                m6id: *m6id,
            },
        }
    }
}

/// The sidechain-side recipient a treasury transaction names, if any: the
/// second output's script past a leading OP_RETURN.
pub open spec fn tx_address(tx: crate::types::TransactionV) -> Option<Seq<u8>> {
    if tx.outputs.len() >= 2 && tx.outputs[1].script_pubkey.len() >= 1
        && tx.outputs[1].script_pubkey[0] == 0x6a {
        Some(tx.outputs[1].script_pubkey.skip(1))
    } else {
        None
    }
}

/// A count raised by one, held at its ceiling.
pub open spec fn saturating_inc_u64(x: u64) -> u64 {
    if x == 0xFFFF_FFFF_FFFF_FFFF {
        x
    } else {
        (x + 1) as u64
    }
}

/// Whether some pending bundle carries this id with enough votes for its
/// withdrawal to be included.
pub open spec fn some_bundle_approved(list: Seq<PendingM6id>, m6id: Hash256) -> bool {
    exists|i: int|
        0 <= i < list.len() && list[i].m6id == m6id && list[i].vote_count
            > WITHDRAWAL_BUNDLE_INCLUSION_THRESHOLD
}

/// What a (potential) treasury transaction does. A transaction whose first
/// output is no OP_DRIVECHAIN script is no treasury transaction and does
/// nothing. One that is must spend the slot's recorded Ctip. Lowering the
/// total is a withdrawal and must match an approved pending bundle, which
/// it consumes. Every treasury transaction appends a treasury record,
/// advances the slot's count and Ctip; raising the total with a recipient
/// script named yields a deposit.
pub open spec fn m5m6_spec(s: ChainStateV, tx: crate::types::TransactionV) -> Result<
    (ChainStateV, Option<TxEventV>),
    ConnectBlockError,
> {
    if tx.outputs.len() == 0 {
        Ok((s, None))
    } else {
        match crate::codec::parse_op_drivechain_spec(tx.outputs[0].script_pubkey) {
            None => Ok((s, None)),
            Some(sidechain_number) => {
                let new_outpoint = crate::types::OutPoint { txid: tx.txid, vout: 0 };
                let new_total = tx.outputs[0].value;
                let address = tx_address(tx);
                let old_ctip = lookup(s.ctips, sidechain_number);
                if old_ctip is Some && !tx.inputs.contains(old_ctip->Some_0.outpoint) {
                    Err(ConnectBlockError::OldCtipUnspent { sidechain_number })
                } else {
                    let old_total = if old_ctip is Some {
                        old_ctip->Some_0.value
                    } else {
                        0u64
                    };
                    let withdrawal = if new_total < old_total {
                        let m6id = crate::digest::m6id_spec(tx.raw, old_total);
                        match lookup(s.pending, sidechain_number) {
                            None => Err(ConnectBlockError::InvalidM6),
                            Some(list) => {
                                if some_bundle_approved(list, m6id) {
                                    Ok(
                                        (
                                            s.with_pending(
                                                store_kv(
                                                    s.pending,
                                                    sidechain_number,
                                                    kept_bundles(list, seq![m6id]),
                                                ),
                                            ),
                                            Some(
                                                TxEventV::Withdrawal {
                                                    sidechain_id: sidechain_number,
                                                    m6id,
                                                },
                                            ),
                                        ),
                                    )
                                } else {
                                    Err(ConnectBlockError::InvalidM6)
                                }
                            },
                        }
                    } else {
                        Ok((s, None))
                    };
                    match withdrawal {
                        Err(e) => Err(e),
                        Ok((s1, wevent)) => {
                            let count = match lookup(s1.counts, sidechain_number) {
                                Some(n) => n,
                                None => 0u64,
                            };
                            let utxo = crate::types::TreasuryUtxoV {
                                outpoint: new_outpoint,
                                address,
                                total_value: new_total,
                                previous_total_value: old_total,
                            };
                            let s2 = ChainStateV {
                                treasury: store_kv(s1.treasury, (sidechain_number, count), utxo),
                                counts: store_kv(
                                    s1.counts,
                                    sidechain_number,
                                    saturating_inc_u64(count),
                                ),
                                ctips: store_kv(
                                    s1.ctips,
                                    sidechain_number,
                                    crate::types::Ctip { outpoint: new_outpoint, value: new_total },
                                ),
                                ..s1
                            };
                            let event = if wevent is Some {
                                wevent
                            } else if address is Some && new_total >= old_total {
                                Some(
                                    TxEventV::Deposit(
                                        crate::types::DepositV {
                                            sidechain_id: sidechain_number,
                                            sequence_number: count,
                                            outpoint: new_outpoint,
                                            output: crate::types::TxOutV {
                                                value: (new_total - old_total) as u64,
                                                script_pubkey: address->0,
                                            },
                                        },
                                    ),
                                )
                            } else {
                                None
                            };
                            Ok((s2, event))
                        },
                    }
                }
            },
        }
    }
}

/// Applies a (potential) treasury transaction.
pub fn handle_m5_m6(state: &mut ChainState, tx: &crate::types::Transaction) -> (r: Result<
    Option<TxEvent>,
    ConnectBlockError,
>)
    ensures
        match m5m6_spec(old(state)@, tx@) {
            Ok((s2, ev)) => {
                &&& r is Ok
                &&& final(state)@ == s2
                &&& match r->Ok_0 {
                    Some(e) => ev == Some(e@),
                    None => ev is None,
                }
            },
            Err(e) => r == Err::<Option<TxEvent>, _>(e) && final(state)@ == old(state)@,
        },
{
    if tx.outputs.len() == 0 {
        return Ok(None);
    }
    proof {
        assert(tx@.outputs[0] == tx.outputs@[0]@);
    }
    let sidechain_number = match crate::codec::parse_op_drivechain(&tx.outputs[0].script_pubkey) {
        None => {
            return Ok(None);
        },
        Some(sn) => sn,
    };
    let new_outpoint = crate::types::OutPoint { txid: tx.txid, vout: 0 };
    let new_total = tx.outputs[0].value;
    let address: Option<Vec<u8>> = if tx.outputs.len() >= 2 && tx.outputs[1].script_pubkey.len()
        >= 1 && tx.outputs[1].script_pubkey[0] == 0x6a {
        proof {
            assert(tx@.outputs[1] == tx.outputs@[1]@);
        }
        Some(
            crate::bytes::copy_range(
                &tx.outputs[1].script_pubkey,
                1,
                tx.outputs[1].script_pubkey.len(),
            ),
        )
    } else {
        proof {
            if tx@.outputs.len() >= 2 {
                assert(tx@.outputs[1] == tx.outputs@[1]@);
            }
        }
        None
    };
    let ghost addr_spec = tx_address(tx@);
    proof {
        match address {
            Some(ref a) => {
                assert(addr_spec == Some(a@));
            },
            None => {
                assert(addr_spec is None);
            },
        }
    }
    let old_total: u64 = match state.try_get_ctip(sidechain_number) {
        Some(old_ctip) => {
            let mut found = false;
            let mut i: usize = 0;
            while i < tx.inputs.len()
                invariant
                    i <= tx.inputs@.len(),
                    found == exists|j: int|
                        0 <= j < i && tx.inputs@[j] == old_ctip.outpoint,
                decreases tx.inputs@.len() - i,
            {
                if tx.inputs[i] == old_ctip.outpoint {
                    found = true;
                }
                i += 1;
            }
            proof {
                assert(tx@.inputs == tx.inputs@);
                if found {
                    assert(tx@.inputs.contains(old_ctip.outpoint));
                } else {
                    assert(!tx@.inputs.contains(old_ctip.outpoint)) by {
                        if tx@.inputs.contains(old_ctip.outpoint) {
                            let j = choose|j: int|
                                0 <= j < tx@.inputs.len() && tx@.inputs[j] == old_ctip.outpoint;
                            assert(exists|j: int|
                                0 <= j < tx.inputs@.len() && tx.inputs@[j] == old_ctip.outpoint);
                        }
                    }
                }
            }
            if !found {
                return Err(ConnectBlockError::OldCtipUnspent { sidechain_number });
            }
            old_ctip.value
        },
        None => 0,
    };
    // Withdrawal: must consume an approved pending bundle.
    let mut wevent: Option<TxEvent> = None;
    if new_total < old_total {
        let m6id = crate::digest::m6_to_id(&tx.raw, old_total);
        let list = match state.try_get_pending(sidechain_number) {
            None => {
                return Err(ConnectBlockError::InvalidM6);
            },
            Some(l) => copy_bundles(l),
        };
        let ghost listv = list@;
        let mut valid = false;
        let mut i: usize = 0;
        while i < list.len()
            invariant
                i <= listv.len(),
                list@ == listv,
                valid == exists|j: int|
                    0 <= j < i && listv[j].m6id == m6id && listv[j].vote_count
                        > WITHDRAWAL_BUNDLE_INCLUSION_THRESHOLD,
            decreases listv.len() - i,
        {
            if list[i].m6id == m6id && list[i].vote_count > WITHDRAWAL_BUNDLE_INCLUSION_THRESHOLD {
                valid = true;
            }
            i += 1;
        }
        if !valid {
            proof {
                assert(!some_bundle_approved(listv, m6id));
            }
            return Err(ConnectBlockError::InvalidM6);
        }
        proof {
            assert(some_bundle_approved(listv, m6id));
        }
        let mut kept: Vec<PendingM6id> = Vec::new();
        let mut i: usize = 0;
        while i < list.len()
            invariant
                i <= listv.len(),
                list@ == listv,
                kept@ == kept_bundles(listv.take(i as int), seq![m6id]),
            decreases listv.len() - i,
        {
            proof {
                assert(listv.take(i + 1).drop_last() =~= listv.take(i as int));
                assert(listv.take(i + 1).last() == listv[i as int]);
                assert(seq![m6id].contains(listv[i as int].m6id) <==> listv[i as int].m6id
                    == m6id) by {
                    if listv[i as int].m6id == m6id {
                        assert(seq![m6id][0] == listv[i as int].m6id);
                    }
                }
            }
            if !(list[i].m6id == m6id) {
                kept.push(list[i]);
            }
            i += 1;
        }
        proof {
            assert(listv.take(listv.len() as int) =~= listv);
        }
        state.put_pending(sidechain_number, kept);
        wevent = Some(TxEvent::Withdrawal { sidechain_id: sidechain_number, m6id });
    }
    // Record the transition, advance the count, move the Ctip.
    let count = match state.try_get_count(sidechain_number) {
        Some(n) => n,
        None => 0,
    };
    let utxo = crate::types::TreasuryUtxo {
        outpoint: new_outpoint,
        address: match &address {
            Some(a) => Some(dup_bytes(a)),
            None => None,
        },
        total_value: new_total,
        previous_total_value: old_total,
    };
    state.put_treasury_utxo(sidechain_number, count, utxo);
    let count2: u64 = if count == 0xFFFF_FFFF_FFFF_FFFF {
        count
    } else {
        count + 1
    };
    state.put_count(sidechain_number, count2);
    state.put_ctip(
        sidechain_number,
        crate::types::Ctip { outpoint: new_outpoint, value: new_total },
    );
    let result: Option<TxEvent> = match wevent {
        Some(w) => Some(w),
        None => {
            match address {
                Some(addr) if new_total >= old_total => Some(
                    TxEvent::Deposit(
                        crate::types::Deposit {
                            sidechain_id: sidechain_number,
                            sequence_number: count,
                            outpoint: new_outpoint,
                            output: crate::types::TxOut {
                                value: new_total - old_total,
                                script_pubkey: addr,
                            },
                        },
                    ),
                ),
                _ => None,
            }
        },
    };
    Ok(result)
}

/// What checking a (potential) BMM request does: nothing for a transaction
/// whose first output is no BMM request; a request must name this block's
/// commitment for its slot and the previous mainchain block.
pub open spec fn m8_spec(
    tx: crate::types::TransactionV,
    commitments: Seq<(u8, Hash256)>,
    prev_mainchain_block_hash: Hash256,
) -> Result<bool, ConnectBlockError> {
    if tx.outputs.len() == 0 {
        Ok(false)
    } else {
        match crate::codec::parse_m8_bmm_request_spec(tx.outputs[0].script_pubkey) {
            None => Ok(false),
            Some(request) => {
                if lookup(commitments, request.sidechain_number) != Some(
                    request.sidechain_block_hash,
                ) {
                    Err(ConnectBlockError::NotAcceptedByMiners)
                } else if request.prev_mainchain_block_hash != prev_mainchain_block_hash {
                    Err(ConnectBlockError::BmmRequestExpired)
                } else {
                    Ok(true)
                }
            },
        }
    }
}

/// Checks a (potential) BMM request against this block's commitments.
/// Returns whether the transaction was a valid BMM request.
pub fn handle_m8(
    tx: &crate::types::Transaction,
    accepted_bmm_requests: &Vec<(u8, Hash256)>,
    prev_mainchain_block_hash: &Hash256,
) -> (r: Result<bool, ConnectBlockError>)
    ensures
        r == m8_spec(tx@, accepted_bmm_requests@, *prev_mainchain_block_hash),
{
    if tx.outputs.len() == 0 {
        return Ok(false);
    }
    proof {
        assert(tx@.outputs[0] == tx.outputs@[0]@);
    }
    let request = match crate::codec::parse_m8_bmm_request(&tx.outputs[0].script_pubkey) {
        None => {
            return Ok(false);
        },
        Some(req) => req,
    };
    let committed = lookup_commitment(accepted_bmm_requests, request.sidechain_number);
    let matches_commitment = match committed {
        Some(h) => h == request.sidechain_block_hash,
        None => false,
    };
    if !matches_commitment {
        Err(ConnectBlockError::NotAcceptedByMiners)
    } else if request.prev_mainchain_block_hash != *prev_mainchain_block_hash {
        Err(ConnectBlockError::BmmRequestExpired)
    } else {
        Ok(true)
    }
}

/// The committed hash for a slot among this block's commitments, if any.
pub fn lookup_commitment(commitments: &Vec<(u8, Hash256)>, sidechain_number: u8) -> (r: Option<
    Hash256,
>)
    ensures
        r == lookup(commitments@, sidechain_number),
{
    let mut i: usize = 0;
    while i < commitments.len()
        invariant
            i <= commitments@.len(),
            forall|j: int| 0 <= j < i ==> commitments@[j].0 != sidechain_number,
        decreases commitments@.len() - i,
    {
        if commitments[i].0 == sidechain_number {
            proof {
                crate::seqmap::lemma_lookup_at(commitments@, sidechain_number, i as int);
            }
            return Some(commitments[i].1);
        }
        i += 1;
    }
    proof {
        crate::seqmap::lemma_lookup_none(commitments@, sidechain_number);
    }
    None
}

/// What an ack-bundles message does to the state.
pub open spec fn m4_ack_spec(s: ChainStateV, m4: crate::types::M4AckBundlesV) -> Result<
    ChainStateV,
    ConnectBlockError,
> {
    match m4 {
        crate::types::M4AckBundlesV::RepeatPrevious => Err(
            ConnectBlockError::UnsupportedM4AckForm,
        ),
        crate::types::M4AckBundlesV::LeadingBy50 => Err(ConnectBlockError::UnsupportedM4AckForm),
        crate::types::M4AckBundlesV::OneByte { upvotes } => Ok(
            m4_votes_spec(s, upvotes.map_values(|v: u8| v as u16)),
        ),
        crate::types::M4AckBundlesV::TwoBytes { upvotes } => Ok(m4_votes_spec(s, upvotes)),
    }
}

/// The view of a vector of (output index, proposal) pairs.
pub open spec fn proposal_pairs_view(v: Seq<(u32, SidechainProposal)>) -> Seq<(
    u32,
    SidechainProposalV,
)> {
    v.map_values(|p: (u32, SidechainProposal)| (p.0, p.1@))
}

/// The view of a vector of deposits.
pub open spec fn deposits_view(v: Seq<crate::types::Deposit>) -> Seq<crate::types::DepositV> {
    v.map_values(|d: crate::types::Deposit| d@)
}

/// What the coinbase outputs from index `k` on do, carrying the BMM
/// commitments, fresh proposals and submitted-bundle events gathered so
/// far. Outputs that are no messages do nothing.
pub open spec fn apply_coinbase_from(
    s: ChainStateV,
    outputs: Seq<crate::types::TxOutV>,
    height: u32,
    k: int,
    commitments: Seq<(u8, Hash256)>,
    proposals: Seq<(u32, SidechainProposalV)>,
    events: Seq<crate::types::WithdrawalBundleEvent>,
) -> Result<
    (
        ChainStateV,
        Seq<(u8, Hash256)>,
        Seq<(u32, SidechainProposalV)>,
        Seq<crate::types::WithdrawalBundleEvent>,
    ),
    ConnectBlockError,
>
    decreases outputs.len() - k,
{
    if k < 0 || k >= outputs.len() {
        Ok((s, commitments, proposals, events))
    } else {
        match crate::codec::parse_coinbase_message_spec(outputs[k].script_pubkey) {
            None => apply_coinbase_from(s, outputs, height, k + 1, commitments, proposals, events),
            Some(msg) => match msg {
                crate::types::CoinbaseMessageV::M1ProposeSidechain { sidechain_number, data } => {
                    let s2 = m1_spec(s, height, sidechain_number, data);
                    let proposals2 = if m1_is_new(s, data) {
                        proposals.push(
                            (
                                ((k % 0x1_0000_0000) as u32),
                                SidechainProposalV {
                                    sidechain_number,
                                    data,
                                    vote_count: 0,
                                    proposal_height: height,
                                },
                            ),
                        )
                    } else {
                        proposals
                    };
                    apply_coinbase_from(s2, outputs, height, k + 1, commitments, proposals2, events)
                },
                crate::types::CoinbaseMessageV::M2AckSidechain { sidechain_number, data_hash } => {
                    apply_coinbase_from(
                        m2_spec(s, height, sidechain_number, data_hash),
                        outputs,
                        height,
                        k + 1,
                        commitments,
                        proposals,
                        events,
                    )
                },
                crate::types::CoinbaseMessageV::M3ProposeBundle { sidechain_number, bundle_txid } => {
                    match m3_spec(s, sidechain_number, bundle_txid) {
                        Err(e) => Err(e),
                        Ok(s2) => apply_coinbase_from(
                            s2,
                            outputs,
                            height,
                            k + 1,
                            commitments,
                            proposals,
                            events.push(
                                crate::types::WithdrawalBundleEvent {
                                    sidechain_id: sidechain_number,
                                    m6id: bundle_txid,
                                    kind: crate::types::WithdrawalBundleEventKind::Submitted,
                                },
                            ),
                        ),
                    }
                },
                crate::types::CoinbaseMessageV::M4AckBundles(m4) => {
                    match m4_ack_spec(s, m4) {
                        Err(e) => Err(e),
                        Ok(s2) => apply_coinbase_from(
                            s2,
                            outputs,
                            height,
                            k + 1,
                            commitments,
                            proposals,
                            events,
                        ),
                    }
                },
                crate::types::CoinbaseMessageV::M7BmmAccept {
                    sidechain_number,
                    sidechain_block_hash,
                } => {
                    if crate::seqmap::has_key(commitments, sidechain_number) {
                        Err(ConnectBlockError::MultipleBmmBlocks { sidechain_number })
                    } else {
                        apply_coinbase_from(
                            s,
                            outputs,
                            height,
                            k + 1,
                            commitments.push((sidechain_number, sidechain_block_hash)),
                            proposals,
                            events,
                        )
                    }
                },
            },
        }
    }
}

/// What the non-coinbase transactions from index `k` on do, carrying the
/// deposits and bundle events gathered so far.
pub open spec fn apply_txs_from(
    s: ChainStateV,
    txs: Seq<crate::types::TransactionV>,
    k: int,
    commitments: Seq<(u8, Hash256)>,
    prev_mainchain_block_hash: Hash256,
    deposits: Seq<crate::types::DepositV>,
    wevents: Seq<crate::types::WithdrawalBundleEvent>,
) -> Result<
    (ChainStateV, Seq<crate::types::DepositV>, Seq<crate::types::WithdrawalBundleEvent>),
    ConnectBlockError,
>
    decreases txs.len() - k,
{
    if k < 0 || k >= txs.len() {
        Ok((s, deposits, wevents))
    } else {
        match m5m6_spec(s, txs[k]) {
            Err(e) => Err(e),
            Ok((s2, ev)) => {
                let deposits2 = match ev {
                    Some(TxEventV::Deposit(d)) => deposits.push(d),
                    _ => deposits,
                };
                let wevents2 = match ev {
                    Some(TxEventV::Withdrawal { sidechain_id, m6id }) => wevents.push(
                        crate::types::WithdrawalBundleEvent {
                            sidechain_id,
                            m6id,
                            kind: crate::types::WithdrawalBundleEventKind::Succeeded,
                        },
                    ),
                    _ => wevents,
                };
                match m8_spec(txs[k], commitments, prev_mainchain_block_hash) {
                    Err(e) => Err(e),
                    Ok(_) => apply_txs_from(
                        s2,
                        txs,
                        k + 1,
                        commitments,
                        prev_mainchain_block_hash,
                        deposits2,
                        wevents2,
                    ),
                }
            },
        }
    }
}

/// The failed (slot, id) pairs as Failed events, in order.
pub open spec fn failed_events(pairs: Seq<(u8, Hash256)>) -> Seq<
    crate::types::WithdrawalBundleEvent,
> {
    pairs.map_values(
        |p: (u8, Hash256)| crate::types::WithdrawalBundleEvent {
            sidechain_id: p.0,
            m6id: p.1,
            kind: crate::types::WithdrawalBundleEventKind::Failed,
        },
    )
}

/// What connecting a block does to the sidechain state, and what the block
/// is recorded as: coinbase messages in output order, then the two expiry
/// sweeps, then the transactions in block order.
pub open spec fn apply_block_spec(s: ChainStateV, b: crate::types::BlockV, height: u32) -> Result<
    (ChainStateV, crate::types::BlockInfoV),
    ConnectBlockError,
>
    recommends
        b.txdata.len() >= 1,
{
    match apply_coinbase_from(
        s,
        b.txdata[0].outputs,
        height,
        0,
        Seq::empty(),
        Seq::empty(),
        Seq::empty(),
    ) {
        Err(e) => Err(e),
        Ok((s1, commitments, proposals, sub_events)) => {
            let s2 = sweep_proposals_spec(s1, height);
            let s3 = sweep_bundles_state_spec(s2);
            let failed = sweep_bundles_failed_spec(s2);
            let wevents0 = sub_events + failed_events(failed);
            match apply_txs_from(
                s3,
                b.txdata.skip(1),
                0,
                commitments,
                b.header.prev_block_hash,
                Seq::empty(),
                wevents0,
            ) {
                Err(e) => Err(e),
                Ok((s4, deposits, wevents)) => Ok(
                    (
                        s4,
                        crate::types::BlockInfoV {
                            coinbase_txid: b.txdata[0].txid,
                            deposits,
                            withdrawal_bundle_events: wevents,
                            sidechain_proposals: proposals,
                            bmm_commitments: commitments,
                        },
                    ),
                ),
            }
        },
    }
}

/// Applies the coinbase outputs: every message in output order. Returns
/// the block's BMM commitments, fresh proposals and submitted-bundle
/// events. On an error the state is left partially written.
fn scan_coinbase(
    state: &mut ChainState,
    outputs: &Vec<crate::types::TxOut>,
    height: u32,
) -> (r: Result<
    (
        Vec<(u8, Hash256)>,
        Vec<(u32, SidechainProposal)>,
        Vec<crate::types::WithdrawalBundleEvent>,
    ),
    ConnectBlockError,
>)
    ensures
        match apply_coinbase_from(
            old(state)@,
            outputs@.map_values(|o: crate::types::TxOut| o@),
            height,
            0,
            Seq::empty(),
            Seq::empty(),
            Seq::empty(),
        ) {
            Ok((s1, c, p, e)) => {
                &&& r is Ok
                &&& final(state)@ == s1
                &&& r->Ok_0.0@ == c
                &&& proposal_pairs_view(r->Ok_0.1@) == p
                &&& r->Ok_0.2@ == e
            },
            Err(e) => r is Err && r->Err_0 == e,
        },
{
    let ghost s0 = state@;
    let ghost outputsv = outputs@.map_values(|o: crate::types::TxOut| o@);
    let mut commitments: Vec<(u8, Hash256)> = Vec::new();
    let mut proposals: Vec<(u32, SidechainProposal)> = Vec::new();
    let mut sub_events: Vec<crate::types::WithdrawalBundleEvent> = Vec::new();
    proof {
        assert(commitments@ =~= Seq::<(u8, Hash256)>::empty());
        assert(proposal_pairs_view(proposals@) =~= Seq::<(u32, SidechainProposalV)>::empty());
        assert(sub_events@ =~= Seq::<crate::types::WithdrawalBundleEvent>::empty());
    }
    let mut i: usize = 0;
    while i < outputs.len()
        invariant
            i <= outputs@.len(),
            s0 == old(state)@,
            outputsv == outputs@.map_values(|o: crate::types::TxOut| o@),
            outputsv.len() == outputs@.len(),
            apply_coinbase_from(
                state@,
                outputsv,
                height,
                i as int,
                commitments@,
                proposal_pairs_view(proposals@),
                sub_events@,
            ) == apply_coinbase_from(
                s0,
                outputsv,
                height,
                0,
                Seq::empty(),
                Seq::empty(),
                Seq::empty(),
            ),
        decreases outputs@.len() - i,
    {
        proof {
            assert(outputsv[i as int] == outputs@[i as int]@);
        }
        let ghost pre_state = state@;
        let ghost pre_commitments = commitments@;
        let ghost pre_proposals = proposal_pairs_view(proposals@);
        let ghost pre_events = sub_events@;
        match crate::codec::parse_coinbase_message(&outputs[i].script_pubkey) {
            None => {
                proof {
                    assert(apply_coinbase_from(
                        pre_state,
                        outputsv,
                        height,
                        i as int,
                        pre_commitments,
                        pre_proposals,
                        pre_events,
                    ) == apply_coinbase_from(
                        pre_state,
                        outputsv,
                        height,
                        i + 1,
                        pre_commitments,
                        pre_proposals,
                        pre_events,
                    ));
                }
            },
            Some(message) => match message {
                crate::types::CoinbaseMessage::M1ProposeSidechain { sidechain_number, data } => {
                    let record_data = dup_bytes(&data);
                    let ghost datav = data@;
                    let is_new = handle_m1_propose_sidechain(
                        state,
                        height,
                        sidechain_number,
                        data,
                    );
                    if is_new {
                        let vout: u32 = ((i as u64) % 0x1_0000_0000) as u32;
                        proposals.push(
                            (
                                vout,
                                SidechainProposal {
                                    sidechain_number,
                                    data: record_data,
                                    vote_count: 0,
                                    proposal_height: height,
                                },
                            ),
                        );
                        proof {
                            assert(proposal_pairs_view(proposals@) =~= pre_proposals.push(
                                (
                                    ((i as int % 0x1_0000_0000) as u32),
                                    SidechainProposalV {
                                        sidechain_number,
                                        data: datav,
                                        vote_count: 0,
                                        proposal_height: height,
                                    },
                                ),
                            ));
                        }
                    }
                    proof {
                        assert(apply_coinbase_from(
                            pre_state,
                            outputsv,
                            height,
                            i as int,
                            pre_commitments,
                            pre_proposals,
                            pre_events,
                        ) == apply_coinbase_from(
                            state@,
                            outputsv,
                            height,
                            i + 1,
                            commitments@,
                            proposal_pairs_view(proposals@),
                            sub_events@,
                        ));
                    }
                },
                crate::types::CoinbaseMessage::M2AckSidechain { sidechain_number, data_hash } => {
                    handle_m2_ack_sidechain(state, height, sidechain_number, data_hash);
                    proof {
                        assert(apply_coinbase_from(
                            pre_state,
                            outputsv,
                            height,
                            i as int,
                            pre_commitments,
                            pre_proposals,
                            pre_events,
                        ) == apply_coinbase_from(
                            state@,
                            outputsv,
                            height,
                            i + 1,
                            commitments@,
                            proposal_pairs_view(proposals@),
                            sub_events@,
                        ));
                    }
                },
                crate::types::CoinbaseMessage::M3ProposeBundle { sidechain_number, bundle_txid } => {
                    match handle_m3_propose_bundle(state, sidechain_number, bundle_txid) {
                        Ok(()) => {
                            sub_events.push(
                                crate::types::WithdrawalBundleEvent {
                                    sidechain_id: sidechain_number,
                                    m6id: bundle_txid,
                                    kind: crate::types::WithdrawalBundleEventKind::Submitted,
                                },
                            );
                            proof {
                                assert(apply_coinbase_from(
                                    pre_state,
                                    outputsv,
                                    height,
                                    i as int,
                                    pre_commitments,
                                    pre_proposals,
                                    pre_events,
                                ) == apply_coinbase_from(
                                    state@,
                                    outputsv,
                                    height,
                                    i + 1,
                                    commitments@,
                                    proposal_pairs_view(proposals@),
                                    sub_events@,
                                ));
                            }
                        },
                        Err(e) => {
                            proof {
                                assert(apply_coinbase_from(
                                    pre_state,
                                    outputsv,
                                    height,
                                    i as int,
                                    pre_commitments,
                                    pre_proposals,
                                    pre_events,
                                ) == Err::<(ChainStateV, Seq<(u8, Hash256)>, Seq<(
                                    u32,
                                    SidechainProposalV,
                                )>, Seq<crate::types::WithdrawalBundleEvent>), _>(e));
                            }
                            return Err(e);
                        },
                    }
                },
                crate::types::CoinbaseMessage::M4AckBundles(m4) => {
                    match handle_m4_ack_bundles(state, &m4) {
                        Ok(()) => {
                            proof {
                                assert(apply_coinbase_from(
                                    pre_state,
                                    outputsv,
                                    height,
                                    i as int,
                                    pre_commitments,
                                    pre_proposals,
                                    pre_events,
                                ) == apply_coinbase_from(
                                    state@,
                                    outputsv,
                                    height,
                                    i + 1,
                                    commitments@,
                                    proposal_pairs_view(proposals@),
                                    sub_events@,
                                ));
                            }
                        },
                        Err(e) => {
                            proof {
                                assert(apply_coinbase_from(
                                    pre_state,
                                    outputsv,
                                    height,
                                    i as int,
                                    pre_commitments,
                                    pre_proposals,
                                    pre_events,
                                ) == Err::<(ChainStateV, Seq<(u8, Hash256)>, Seq<(
                                    u32,
                                    SidechainProposalV,
                                )>, Seq<crate::types::WithdrawalBundleEvent>), _>(e));
                            }
                            return Err(e);
                        },
                    }
                },
                crate::types::CoinbaseMessage::M7BmmAccept {
                    sidechain_number,
                    sidechain_block_hash,
                } => {
                    proof {
                        crate::seqmap::lemma_lookup_has_key(commitments@, sidechain_number);
                    }
                    if lookup_commitment(&commitments, sidechain_number).is_some() {
                        proof {
                            assert(apply_coinbase_from(
                                pre_state,
                                outputsv,
                                height,
                                i as int,
                                pre_commitments,
                                pre_proposals,
                                pre_events,
                            ) == Err::<(ChainStateV, Seq<(u8, Hash256)>, Seq<(
                                u32,
                                SidechainProposalV,
                            )>, Seq<crate::types::WithdrawalBundleEvent>), _>(
                                ConnectBlockError::MultipleBmmBlocks { sidechain_number },
                            ));
                        }
                        return Err(ConnectBlockError::MultipleBmmBlocks { sidechain_number });
                    }
                    commitments.push((sidechain_number, sidechain_block_hash));
                    proof {
                        assert(apply_coinbase_from(
                            pre_state,
                            outputsv,
                            height,
                            i as int,
                            pre_commitments,
                            pre_proposals,
                            pre_events,
                        ) == apply_coinbase_from(
                            state@,
                            outputsv,
                            height,
                            i + 1,
                            commitments@,
                            proposal_pairs_view(proposals@),
                            sub_events@,
                        ));
                    }
                },
            },
        }
        i += 1;
    }
    Ok((commitments, proposals, sub_events))
}

/// Applies the non-coinbase transactions in block order, appending their
/// deposits and bundle events. On an error the state is left partially
/// written.
#[verifier::rlimit(100)]
fn scan_txs(
    state: &mut ChainState,
    block: &crate::types::Block,
    commitments: &Vec<(u8, Hash256)>,
    wevents: &mut Vec<crate::types::WithdrawalBundleEvent>,
) -> (r: Result<Vec<crate::types::Deposit>, ConnectBlockError>)
    requires
        block@.txdata.len() >= 1,
    ensures
        match apply_txs_from(
            old(state)@,
            block@.txdata.skip(1),
            0,
            commitments@,
            block@.header.prev_block_hash,
            Seq::empty(),
            old(wevents)@,
        ) {
            Ok((s2, deps, evs)) => {
                &&& r is Ok
                &&& final(state)@ == s2
                &&& deposits_view(r->Ok_0@) == deps
                &&& final(wevents)@ == evs
            },
            Err(e) => r is Err && r->Err_0 == e,
        },
{
    let ghost s0 = state@;
    let ghost bv = block@;
    let ghost txsv = bv.txdata.skip(1);
    let ghost evs0 = wevents@;
    let prev_mainchain_block_hash = block.header.prev_block_hash;
    let mut deposits: Vec<crate::types::Deposit> = Vec::new();
    proof {
        assert(deposits_view(deposits@) =~= Seq::<crate::types::DepositV>::empty());
    }
    let mut t: usize = 1;
    while t < block.txdata.len()
        invariant
            1 <= t <= block.txdata@.len(),
            s0 == old(state)@,
            evs0 == old(wevents)@,
            block@ == bv,
            bv.txdata.len() >= 1,
            txsv == bv.txdata.skip(1),
            block.txdata@.len() == bv.txdata.len(),
            prev_mainchain_block_hash == bv.header.prev_block_hash,
            apply_txs_from(
                state@,
                txsv,
                t - 1,
                commitments@,
                prev_mainchain_block_hash,
                deposits_view(deposits@),
                wevents@,
            ) == apply_txs_from(
                s0,
                txsv,
                0,
                commitments@,
                prev_mainchain_block_hash,
                Seq::empty(),
                evs0,
            ),
        decreases block.txdata@.len() - t,
    {
        proof {
            assert(bv.txdata[t as int] == block.txdata@[t as int]@);
            assert(txsv[t - 1] == bv.txdata[t as int]);
        }
        let ghost pre_state = state@;
        let ghost pre_deposits = deposits_view(deposits@);
        let ghost pre_events = wevents@;
        let event = match handle_m5_m6(state, &block.txdata[t]) {
            Ok(ev) => ev,
            Err(e) => {
                proof {
                    assert(apply_txs_from(
                        pre_state,
                        txsv,
                        t - 1,
                        commitments@,
                        prev_mainchain_block_hash,
                        pre_deposits,
                        pre_events,
                    ) == Err::<(ChainStateV, Seq<crate::types::DepositV>, Seq<
                        crate::types::WithdrawalBundleEvent,
                    >), _>(e));
                }
                return Err(e);
            },
        };
        match event {
            Some(TxEvent::Deposit(d)) => {
                let ghost dv = d@;
                deposits.push(d);
                proof {
                    assert(deposits_view(deposits@) =~= pre_deposits.push(dv));
                }
            },
            Some(TxEvent::Withdrawal { sidechain_id, m6id }) => {
                wevents.push(
                    crate::types::WithdrawalBundleEvent {
                        sidechain_id,
                        m6id,
                        kind: crate::types::WithdrawalBundleEventKind::Succeeded,
                    },
                );
            },
            None => {},
        }
        match handle_m8(&block.txdata[t], commitments, &prev_mainchain_block_hash) {
            Ok(_) => {},
            Err(e) => {
                proof {
                    assert(apply_txs_from(
                        pre_state,
                        txsv,
                        t - 1,
                        commitments@,
                        prev_mainchain_block_hash,
                        pre_deposits,
                        pre_events,
                    ) == Err::<(ChainStateV, Seq<crate::types::DepositV>, Seq<
                        crate::types::WithdrawalBundleEvent,
                    >), _>(e));
                }
                return Err(e);
            },
        }
        proof {
            assert(apply_txs_from(
                pre_state,
                txsv,
                t - 1,
                commitments@,
                prev_mainchain_block_hash,
                pre_deposits,
                pre_events,
            ) == apply_txs_from(
                state@,
                txsv,
                t as int,
                commitments@,
                prev_mainchain_block_hash,
                deposits_view(deposits@),
                wevents@,
            ));
        }
        t += 1;
    }
    Ok(deposits)
}

/// Applies one block to the sidechain state. On an error the state is left
/// partially written: the caller works on a copy and installs it only on
/// success.
pub fn apply_block(state: &mut ChainState, block: &crate::types::Block, height: u32) -> (r:
    Result<crate::types::BlockInfo, ConnectBlockError>)
    requires
        block@.txdata.len() >= 1,
    ensures
        match apply_block_spec(old(state)@, block@, height) {
            Ok((s2, info)) => r is Ok && final(state)@ == s2 && r->Ok_0@ == info,
            Err(e) => r is Err && r->Err_0 == e,
        },
{
    let ghost s0 = state@;
    let ghost bv = block@;
    proof {
        assert(bv.txdata[0] == block.txdata@[0]@);
        assert(bv.txdata[0].outputs =~= block.txdata@[0].outputs@.map_values(
            |o: crate::types::TxOut| o@,
        ));
    }
    let (commitments, proposals, sub_events) = match scan_coinbase(
        state,
        &block.txdata[0].outputs,
        height,
    ) {
        Ok(parts) => parts,
        Err(e) => {
            return Err(e);
        },
    };
    // Expiry sweeps, then failed-bundle events after the submitted ones.
    handle_failed_sidechain_proposals(state, height);
    let failed = handle_failed_m6ids(state);
    let ghost s3 = state@;
    let mut wevents = sub_events;
    let ghost wevents_before = wevents@;
    let mut j: usize = 0;
    while j < failed.len()
        invariant
            j <= failed@.len(),
            wevents@ == wevents_before + failed_events(failed@.take(j as int)),
        decreases failed@.len() - j,
    {
        wevents.push(
            crate::types::WithdrawalBundleEvent {
                sidechain_id: failed[j].0,
                m6id: failed[j].1,
                kind: crate::types::WithdrawalBundleEventKind::Failed,
            },
        );
        proof {
            assert(wevents@ =~= wevents_before + failed_events(failed@.take(j + 1)));
        }
        j += 1;
    }
    proof {
        assert(failed@.take(failed@.len() as int) =~= failed@);
        assert(wevents@ == wevents_before + failed_events(failed@));
    }
    // The block's transactions, in order.
    let deposits = match scan_txs(state, block, &commitments, &mut wevents) {
        Ok(deps) => deps,
        Err(e) => {
            return Err(e);
        },
    };
    let info = crate::types::BlockInfo {
        coinbase_txid: block.txdata[0].txid,
        deposits,
        withdrawal_bundle_events: wevents,
        sidechain_proposals: proposals,
        bmm_commitments: commitments,
    };
    proof {
        let expected = apply_block_spec(s0, bv, height)->Ok_0.1;
        assert(info@.deposits =~= expected.deposits);
        assert(info@.sidechain_proposals =~= expected.sidechain_proposals);
        assert(info@ =~= expected);
    }
    Ok(info)
}

} // verus!