//! The sidechain state tables: proposals, activated slots, pending
//! withdrawal bundles, treasury tips and history, per-slot counters.
//! A write either commits as a whole or leaves no trace; the block
//! connector works on a copy and installs it only on success.

use vstd::prelude::*;

use crate::seqmap::{
    has_key, lemma_first_match_exists, lemma_lookup_at, lemma_lookup_none, lemma_remove_at,
    lemma_remove_absent, lemma_store_absent, lemma_store_at, lookup, remove_kv, store_kv,
    unique_keys,
};
use crate::types::{
    Ctip, Hash256, PendingM6id, Sidechain, SidechainProposal, SidechainProposalV, SidechainV,
    TreasuryUtxo, TreasuryUtxoV,
};

verus! {

/// All sidechain state that one block changes, as the tables hold it.
pub struct ChainState {
    /// description hash of a proposal, to the proposal.
    pub proposals: Vec<(Hash256, SidechainProposal)>,
    /// slot, to the sidechain activated in it.
    pub active: Vec<(u8, Sidechain)>,
    /// slot, to its proposed withdrawal bundles.
    pub pending: Vec<(u8, Vec<PendingM6id>)>,
    /// slot, to the UTXO holding its treasury.
    pub ctips: Vec<(u8, Ctip)>,
    /// (slot, sequence number), to the treasury transition recorded there.
    pub treasury: Vec<((u8, u64), TreasuryUtxo)>,
    /// slot, to how many treasury transitions it has seen.
    pub counts: Vec<(u8, u64)>,
}

#[verifier::ext_equal]
pub ghost struct ChainStateV {
    pub proposals: Seq<(Hash256, SidechainProposalV)>,
    pub active: Seq<(u8, SidechainV)>,
    pub pending: Seq<(u8, Seq<PendingM6id>)>,
    pub ctips: Seq<(u8, Ctip)>,
    pub treasury: Seq<((u8, u64), TreasuryUtxoV)>,
    pub counts: Seq<(u8, u64)>,
}

impl View for ChainState {
    type V = ChainStateV;

    open spec fn view(&self) -> ChainStateV {
        ChainStateV {
            proposals: self.proposals@.map_values(
                |p: (Hash256, SidechainProposal)| (p.0, p.1@),
            ),
            active: self.active@.map_values(|p: (u8, Sidechain)| (p.0, p.1@)),
            pending: self.pending@.map_values(|p: (u8, Vec<PendingM6id>)| (p.0, p.1@)),
            ctips: self.ctips@,
            treasury: self.treasury@.map_values(|p: ((u8, u64), TreasuryUtxo)| (p.0, p.1@)),
            counts: self.counts@,
        }
    }
}

impl ChainStateV {
    pub open spec fn with_proposals(self, proposals: Seq<(Hash256, SidechainProposalV)>) -> Self {
        ChainStateV { proposals, ..self }
    }

    pub open spec fn with_active(self, active: Seq<(u8, SidechainV)>) -> Self {
        ChainStateV { active, ..self }
    }

    pub open spec fn with_pending(self, pending: Seq<(u8, Seq<PendingM6id>)>) -> Self {
        ChainStateV { pending, ..self }
    }

    /// Every table keyed without repetition.
    pub open spec fn keys_unique(self) -> bool {
        &&& unique_keys(self.proposals)
        &&& unique_keys(self.active)
        &&& unique_keys(self.pending)
        &&& unique_keys(self.ctips)
        &&& unique_keys(self.treasury)
        &&& unique_keys(self.counts)
    }

    /// Whether a slot's transition count is still below its ceiling. Every
    /// reachable store is far below it; the bookkeeping clauses speak only
    /// of such slots.
    pub open spec fn slot_unsaturated(self, sn: u8) -> bool {
        lookup(self.counts, sn) is Some ==> lookup(self.counts, sn)->Some_0
            < 0xFFFF_FFFF_FFFF_FFFF
    }

    /// The treasury bookkeeping invariant: a slot has a Ctip exactly when it
    /// has a count; counts are positive; sequence numbers form the dense
    /// prefix of the count; consecutive records chain their totals; and the
    /// Ctip mirrors the newest record.
    pub open spec fn peg_coupled(self) -> bool {
        &&& forall|sn: u8| has_key(self.ctips, sn) <==> has_key(self.counts, sn)
        &&& forall|sn: u8| #[trigger] lookup(self.counts, sn) is Some
            ==> lookup(self.counts, sn)->Some_0 >= 1
        &&& forall|sn: u8, q: u64| self.slot_unsaturated(sn) ==> (#[trigger] has_key(
            self.treasury,
            (sn, q),
        ) <==> (lookup(self.counts, sn) is Some && q < lookup(self.counts, sn)->Some_0))
        &&& forall|sn: u8, q: u64| self.slot_unsaturated(sn) && #[trigger] lookup(
            self.treasury,
            (sn, q),
        ) is Some ==> {
            let u = lookup(self.treasury, (sn, q))->Some_0;
            &&& u.outpoint.vout == 0
            &&& u.previous_total_value == if q == 0 {
                0u64
            } else {
                lookup(self.treasury, (sn, (q - 1) as u64))->Some_0.total_value
            }
        }
        &&& forall|sn: u8| self.slot_unsaturated(sn) && #[trigger] lookup(self.ctips, sn)
            is Some ==> {
            let c = lookup(self.ctips, sn)->Some_0;
            let n = lookup(self.counts, sn)->Some_0;
            let last = lookup(self.treasury, (sn, (n - 1) as u64))->Some_0;
            &&& lookup(self.counts, sn) is Some
            &&& c.outpoint == last.outpoint
            &&& c.value == last.total_value
        }
    }

    /// The state invariant every exported operation preserves.
    pub open spec fn inv(self) -> bool {
        self.keys_unique() && self.peg_coupled()
    }
}

impl ChainState {
    /// The empty state: what a fresh store holds.
    pub fn new() -> (r: ChainState)
        ensures
            r@.proposals.len() == 0,
            r@.active.len() == 0,
            r@.pending.len() == 0,
            r@.ctips.len() == 0,
            r@.treasury.len() == 0,
            r@.counts.len() == 0,
            r@.inv(),
    {
        let r = ChainState {
            proposals: Vec::new(),
            active: Vec::new(),
            pending: Vec::new(),
            ctips: Vec::new(),
            treasury: Vec::new(),
            counts: Vec::new(),
        };
        proof {
            assert(r@.proposals =~= Seq::<(Hash256, SidechainProposalV)>::empty());
            assert(r@.active =~= Seq::<(u8, SidechainV)>::empty());
            assert(r@.pending =~= Seq::<(u8, Seq<PendingM6id>)>::empty());
            assert(r@.treasury =~= Seq::<((u8, u64), TreasuryUtxoV)>::empty());
        }
        r
    }

    /// A fresh state with the same tables.
    pub fn duplicate(&self) -> (r: ChainState)
        ensures
            r@ == self@,
    {
        let mut proposals: Vec<(Hash256, SidechainProposal)> = Vec::new();
        let mut i: usize = 0;
        while i < self.proposals.len()
            invariant
                i <= self.proposals@.len(),
                proposals@.len() == i,
                forall|j: int| 0 <= j < i ==> (#[trigger] proposals@[j]).0
                    == self.proposals@[j].0 && proposals@[j].1@ == self.proposals@[j].1@,
            decreases self.proposals@.len() - i,
        {
            let pair = &self.proposals[i];
            proposals.push((pair.0, pair.1.duplicate()));
            i += 1;
        }
        let mut active: Vec<(u8, Sidechain)> = Vec::new();
        let mut i: usize = 0;
        while i < self.active.len()
            invariant
                i <= self.active@.len(),
                active@.len() == i,
                forall|j: int| 0 <= j < i ==> (#[trigger] active@[j]).0 == self.active@[j].0
                    && active@[j].1@ == self.active@[j].1@,
            decreases self.active@.len() - i,
        {
            let pair = &self.active[i];
            active.push((pair.0, pair.1.duplicate()));
            i += 1;
        }
        let mut pending: Vec<(u8, Vec<PendingM6id>)> = Vec::new();
        let mut i: usize = 0;
        while i < self.pending.len()
            invariant
                i <= self.pending@.len(),
                pending@.len() == i,
                forall|j: int| 0 <= j < i ==> (#[trigger] pending@[j]).0 == self.pending@[j].0
                    && pending@[j].1@ == self.pending@[j].1@,
            decreases self.pending@.len() - i,
        {
            let pair = &self.pending[i];
            pending.push((pair.0, crate::engine::copy_bundles(&pair.1)));
            i += 1;
        }
        let mut ctips: Vec<(u8, Ctip)> = Vec::new();
        let mut i: usize = 0;
        while i < self.ctips.len()
            invariant
                i <= self.ctips@.len(),
                ctips@ == self.ctips@.subrange(0, i as int),
            decreases self.ctips@.len() - i,
        {
            ctips.push(self.ctips[i]);
            proof {
                assert(ctips@ =~= self.ctips@.subrange(0, i + 1));
            }
            i += 1;
        }
        let mut treasury: Vec<((u8, u64), TreasuryUtxo)> = Vec::new();
        let mut i: usize = 0;
        while i < self.treasury.len()
            invariant
                i <= self.treasury@.len(),
                treasury@.len() == i,
                forall|j: int| 0 <= j < i ==> (#[trigger] treasury@[j]).0
                    == self.treasury@[j].0 && treasury@[j].1@ == self.treasury@[j].1@,
            decreases self.treasury@.len() - i,
        {
            let pair = &self.treasury[i];
            treasury.push((pair.0, pair.1.duplicate()));
            i += 1;
        }
        let mut counts: Vec<(u8, u64)> = Vec::new();
        let mut i: usize = 0;
        while i < self.counts.len()
            invariant
                i <= self.counts@.len(),
                counts@ == self.counts@.subrange(0, i as int),
            decreases self.counts@.len() - i,
        {
            counts.push(self.counts[i]);
            proof {
                assert(counts@ =~= self.counts@.subrange(0, i + 1));
            }
            i += 1;
        }
        let r = ChainState { proposals, active, pending, ctips, treasury, counts };
        proof {
            assert(r@.proposals =~= self@.proposals);
            assert(r@.active =~= self@.active);
            assert(r@.pending =~~= self@.pending);
            assert(r.ctips@ =~= self.ctips@);
            assert(r@.treasury =~= self@.treasury);
            assert(r.counts@ =~= self.counts@);
            assert(r@ =~~= self@);
        }
        r
    }

    fn find_proposal(&self, data_hash: &Hash256) -> (r: Option<usize>)
        ensures
            match r {
                Some(i) => {
                    &&& i < self@.proposals.len()
                    &&& self@.proposals[i as int].0 == *data_hash
                    &&& forall|j: int| 0 <= j < i ==> self@.proposals[j].0 != *data_hash
                },
                None => forall|j: int|
                    0 <= j < self@.proposals.len() ==> self@.proposals[j].0 != *data_hash,
            },
    {
        let mut i: usize = 0;
        while i < self.proposals.len()
            invariant
                i <= self.proposals@.len(),
                forall|j: int| 0 <= j < i ==> self@.proposals[j].0 != *data_hash,
            decreases self.proposals@.len() - i,
        {
            if self.proposals[i].0 == *data_hash {
                assert(self@.proposals[i as int].0 == *data_hash);
                return Some(i);
            }
            assert(self@.proposals[i as int].0 != *data_hash);
            i += 1;
        }
        None
    }

    /// The proposal under a description hash, if any.
    pub fn try_get_proposal(&self, data_hash: &Hash256) -> (r: Option<&SidechainProposal>)
        ensures
            match r {
                Some(p) => lookup(self@.proposals, *data_hash) == Some(p@),
                None => lookup(self@.proposals, *data_hash) is None,
            },
    {
        match self.find_proposal(data_hash) {
            Some(i) => {
                proof {
                    lemma_lookup_at(self@.proposals, *data_hash, i as int);
                }
                Some(&self.proposals[i].1)
            },
            None => {
                proof {
                    lemma_lookup_none(self@.proposals, *data_hash);
                }
                None
            },
        }
    }

    /// Writes a proposal under its description hash.
    pub fn put_proposal(&mut self, data_hash: Hash256, proposal: SidechainProposal)
        ensures
            final(self)@ == old(self)@.with_proposals(
                store_kv(old(self)@.proposals, data_hash, proposal@),
            ),
    {
        let ghost pre = self@.proposals;
        match self.find_proposal(&data_hash) {
            Some(i) => {
                proof {
                    lemma_store_at(pre, data_hash, proposal@, i as int);
                }
                let slot = &mut self.proposals[i];
                *slot = (data_hash, proposal);
                proof {
                    assert(self@.proposals =~= pre.update(i as int, (data_hash, proposal@)));
                    assert(self@ =~= old(self)@.with_proposals(
                        store_kv(pre, data_hash, proposal@),
                    ));
                }
            },
            None => {
                proof {
                    lemma_store_absent(pre, data_hash, proposal@);
                }
                self.proposals.push((data_hash, proposal));
                proof {
                    assert(self@.proposals =~= pre.push((data_hash, proposal@)));
                    assert(self@ =~= old(self)@.with_proposals(
                        store_kv(pre, data_hash, proposal@),
                    ));
                }
            },
        }
    }

    /// Deletes the proposal under a description hash, if any.
    pub fn delete_proposal(&mut self, data_hash: &Hash256)
        ensures
            final(self)@ == old(self)@.with_proposals(
                remove_kv(old(self)@.proposals, *data_hash),
            ),
    {
        let ghost pre = self@.proposals;
        match self.find_proposal(data_hash) {
            Some(i) => {
                proof {
                    lemma_remove_at(pre, *data_hash, i as int);
                }
                let _ = self.proposals.remove(i);
                proof {
                    assert(self@.proposals =~= pre.remove(i as int));
                    assert(self@ =~= old(self)@.with_proposals(remove_kv(pre, *data_hash)));
                }
            },
            None => {
                proof {
                    lemma_remove_absent(pre, *data_hash);
                    assert(self@ =~= old(self)@.with_proposals(remove_kv(pre, *data_hash)));
                }
            },
        }
    }

    fn find_active(&self, sidechain_number: u8) -> (r: Option<usize>)
        ensures
            match r {
                Some(i) => {
                    &&& i < self@.active.len()
                    &&& self@.active[i as int].0 == sidechain_number
                    &&& forall|j: int| 0 <= j < i ==> self@.active[j].0 != sidechain_number
                },
                None => forall|j: int|
                    0 <= j < self@.active.len() ==> self@.active[j].0 != sidechain_number,
            },
    {
        let mut i: usize = 0;
        while i < self.active.len()
            invariant
                i <= self.active@.len(),
                forall|j: int| 0 <= j < i ==> self@.active[j].0 != sidechain_number,
            decreases self.active@.len() - i,
        {
            if self.active[i].0 == sidechain_number {
                assert(self@.active[i as int].0 == sidechain_number);
                return Some(i);
            }
            assert(self@.active[i as int].0 != sidechain_number);
            i += 1;
        }
        None
    }

    /// The sidechain activated in a slot, if any.
    pub fn try_get_active(&self, sidechain_number: u8) -> (r: Option<&Sidechain>)
        ensures
            match r {
                Some(s) => lookup(self@.active, sidechain_number) == Some(s@),
                None => lookup(self@.active, sidechain_number) is None,
            },
    {
        match self.find_active(sidechain_number) {
            Some(i) => {
                proof {
                    lemma_lookup_at(self@.active, sidechain_number, i as int);
                }
                Some(&self.active[i].1)
            },
            None => {
                proof {
                    lemma_lookup_none(self@.active, sidechain_number);
                }
                None
            },
        }
    }

    /// Installs a sidechain in its slot.
    pub fn put_active(&mut self, sidechain_number: u8, sidechain: Sidechain)
        ensures
            final(self)@ == old(self)@.with_active(
                store_kv(old(self)@.active, sidechain_number, sidechain@),
            ),
    {
        let ghost pre = self@.active;
        match self.find_active(sidechain_number) {
            Some(i) => {
                proof {
                    lemma_store_at(pre, sidechain_number, sidechain@, i as int);
                }
                let slot = &mut self.active[i];
                *slot = (sidechain_number, sidechain);
                proof {
                    assert(self@.active =~= pre.update(i as int, (sidechain_number, sidechain@)));
                    assert(self@ =~= old(self)@.with_active(
                        store_kv(pre, sidechain_number, sidechain@),
                    ));
                }
            },
            None => {
                proof {
                    lemma_store_absent(pre, sidechain_number, sidechain@);
                }
                self.active.push((sidechain_number, sidechain));
                proof {
                    assert(self@.active =~= pre.push((sidechain_number, sidechain@)));
                    assert(self@ =~= old(self)@.with_active(
                        store_kv(pre, sidechain_number, sidechain@),
                    ));
                }
            },
        }
    }

    fn find_pending(&self, sidechain_number: u8) -> (r: Option<usize>)
        ensures
            match r {
                Some(i) => {
                    &&& i < self@.pending.len()
                    &&& self@.pending[i as int].0 == sidechain_number
                    &&& forall|j: int| 0 <= j < i ==> self@.pending[j].0 != sidechain_number
                },
                None => forall|j: int|
                    0 <= j < self@.pending.len() ==> self@.pending[j].0 != sidechain_number,
            },
    {
        let mut i: usize = 0;
        while i < self.pending.len()
            invariant
                i <= self.pending@.len(),
                forall|j: int| 0 <= j < i ==> self@.pending[j].0 != sidechain_number,
            decreases self.pending@.len() - i,
        {
            if self.pending[i].0 == sidechain_number {
                assert(self@.pending[i as int].0 == sidechain_number);
                return Some(i);
            }
            assert(self@.pending[i as int].0 != sidechain_number);
            i += 1;
        }
        None
    }

    /// The pending withdrawal bundles of a slot, if any were recorded.
    pub fn try_get_pending(&self, sidechain_number: u8) -> (r: Option<&Vec<PendingM6id>>)
        ensures
            match r {
                Some(v) => lookup(self@.pending, sidechain_number) == Some(v@),
                None => lookup(self@.pending, sidechain_number) is None,
            },
    {
        match self.find_pending(sidechain_number) {
            Some(i) => {
                proof {
                    lemma_lookup_at(self@.pending, sidechain_number, i as int);
                }
                Some(&self.pending[i].1)
            },
            None => {
                proof {
                    lemma_lookup_none(self@.pending, sidechain_number);
                }
                None
            },
        }
    }

    /// Writes a slot's pending withdrawal bundles.
    pub fn put_pending(&mut self, sidechain_number: u8, bundles: Vec<PendingM6id>)
        ensures
            final(self)@ == old(self)@.with_pending(
                store_kv(old(self)@.pending, sidechain_number, bundles@),
            ),
    {
        let ghost pre = self@.pending;
        match self.find_pending(sidechain_number) {
            Some(i) => {
                proof {
                    lemma_store_at(pre, sidechain_number, bundles@, i as int);
                }
                let slot = &mut self.pending[i];
                *slot = (sidechain_number, bundles);
                proof {
                    assert(self@.pending =~= pre.update(i as int, (sidechain_number, bundles@)));
                    assert(self@ =~= old(self)@.with_pending(
                        store_kv(pre, sidechain_number, bundles@),
                    ));
                }
            },
            None => {
                proof {
                    lemma_store_absent(pre, sidechain_number, bundles@);
                }
                self.pending.push((sidechain_number, bundles));
                proof {
                    assert(self@.pending =~= pre.push((sidechain_number, bundles@)));
                    assert(self@ =~= old(self)@.with_pending(
                        store_kv(pre, sidechain_number, bundles@),
                    ));
                }
            },
        }
    }

    fn find_ctip(&self, sidechain_number: u8) -> (r: Option<usize>)
        ensures
            match r {
                Some(i) => {
                    &&& i < self@.ctips.len()
                    &&& self@.ctips[i as int].0 == sidechain_number
                    &&& forall|j: int| 0 <= j < i ==> self@.ctips[j].0 != sidechain_number
                },
                None => forall|j: int|
                    0 <= j < self@.ctips.len() ==> self@.ctips[j].0 != sidechain_number,
            },
    {
        let mut i: usize = 0;
        while i < self.ctips.len()
            invariant
                i <= self.ctips@.len(),
                forall|j: int| 0 <= j < i ==> self@.ctips[j].0 != sidechain_number,
            decreases self.ctips@.len() - i,
        {
            if self.ctips[i].0 == sidechain_number {
                return Some(i);
            }
            i += 1;
        }
        None
    }

    /// The treasury UTXO of a slot, if one was recorded.
    pub fn try_get_ctip(&self, sidechain_number: u8) -> (r: Option<Ctip>)
        ensures
            r == lookup(self@.ctips, sidechain_number),
    {
        match self.find_ctip(sidechain_number) {
            Some(i) => {
                proof {
                    lemma_lookup_at(self@.ctips, sidechain_number, i as int);
                }
                Some(self.ctips[i].1)
            },
            None => {
                proof {
                    lemma_lookup_none(self@.ctips, sidechain_number);
                }
                None
            },
        }
    }

    /// Overwrites a slot's treasury UTXO.
    pub fn put_ctip(&mut self, sidechain_number: u8, ctip: Ctip)
        ensures
            final(self)@ == (ChainStateV {
                ctips: store_kv(old(self)@.ctips, sidechain_number, ctip),
                ..old(self)@
            }),
    {
        let ghost pre = self@.ctips;
        match self.find_ctip(sidechain_number) {
            Some(i) => {
                proof {
                    lemma_store_at(pre, sidechain_number, ctip, i as int);
                }
                let slot = &mut self.ctips[i];
                *slot = (sidechain_number, ctip);
                proof {
                    assert(self@.ctips =~= pre.update(i as int, (sidechain_number, ctip)));
                    assert(self@ =~= ChainStateV {
                        ctips: store_kv(pre, sidechain_number, ctip),
                        ..old(self)@
                    });
                }
            },
            None => {
                proof {
                    lemma_store_absent(pre, sidechain_number, ctip);
                }
                self.ctips.push((sidechain_number, ctip));
                proof {
                    assert(self@.ctips =~= pre.push((sidechain_number, ctip)));
                    assert(self@ =~= ChainStateV {
                        ctips: store_kv(pre, sidechain_number, ctip),
                        ..old(self)@
                    });
                }
            },
        }
    }

    fn find_count(&self, sidechain_number: u8) -> (r: Option<usize>)
        ensures
            match r {
                Some(i) => {
                    &&& i < self@.counts.len()
                    &&& self@.counts[i as int].0 == sidechain_number
                    &&& forall|j: int| 0 <= j < i ==> self@.counts[j].0 != sidechain_number
                },
                None => forall|j: int|
                    0 <= j < self@.counts.len() ==> self@.counts[j].0 != sidechain_number,
            },
    {
        let mut i: usize = 0;
        while i < self.counts.len()
            invariant
                i <= self.counts@.len(),
                forall|j: int| 0 <= j < i ==> self@.counts[j].0 != sidechain_number,
            decreases self.counts@.len() - i,
        {
            if self.counts[i].0 == sidechain_number {
                return Some(i);
            }
            i += 1;
        }
        None
    }

    /// How many treasury transitions a slot has seen, if any.
    pub fn try_get_count(&self, sidechain_number: u8) -> (r: Option<u64>)
        ensures
            r == lookup(self@.counts, sidechain_number),
    {
        match self.find_count(sidechain_number) {
            Some(i) => {
                proof {
                    lemma_lookup_at(self@.counts, sidechain_number, i as int);
                }
                Some(self.counts[i].1)
            },
            None => {
                proof {
                    lemma_lookup_none(self@.counts, sidechain_number);
                }
                None
            },
        }
    }

    /// Writes a slot's treasury transition count.
    pub fn put_count(&mut self, sidechain_number: u8, count: u64)
        ensures
            final(self)@ == (ChainStateV {
                counts: store_kv(old(self)@.counts, sidechain_number, count),
                ..old(self)@
            }),
    {
        let ghost pre = self@.counts;
        match self.find_count(sidechain_number) {
            Some(i) => {
                proof {
                    lemma_store_at(pre, sidechain_number, count, i as int);
                }
                let slot = &mut self.counts[i];
                *slot = (sidechain_number, count);
                proof {
                    assert(self@.counts =~= pre.update(i as int, (sidechain_number, count)));
                    assert(self@ =~= ChainStateV {
                        counts: store_kv(pre, sidechain_number, count),
                        ..old(self)@
                    });
                }
            },
            None => {
                proof {
                    lemma_store_absent(pre, sidechain_number, count);
                }
                self.counts.push((sidechain_number, count));
                proof {
                    assert(self@.counts =~= pre.push((sidechain_number, count)));
                    assert(self@ =~= ChainStateV {
                        counts: store_kv(pre, sidechain_number, count),
                        ..old(self)@
                    });
                }
            },
        }
    }

    fn find_treasury(&self, key: (u8, u64)) -> (r: Option<usize>)
        ensures
            match r {
                Some(i) => {
                    &&& i < self@.treasury.len()
                    &&& self@.treasury[i as int].0 == key
                    &&& forall|j: int| 0 <= j < i ==> self@.treasury[j].0 != key
                },
                None => forall|j: int|
                    0 <= j < self@.treasury.len() ==> self@.treasury[j].0 != key,
            },
    {
        let mut i: usize = 0;
        while i < self.treasury.len()
            invariant
                i <= self.treasury@.len(),
                forall|j: int| 0 <= j < i ==> self@.treasury[j].0 != key,
            decreases self.treasury@.len() - i,
        {
            if self.treasury[i].0.0 == key.0 && self.treasury[i].0.1 == key.1 {
                assert(self@.treasury[i as int].0 == key);
                return Some(i);
            }
            assert(self@.treasury[i as int].0 != key);
            i += 1;
        }
        None
    }

    /// The treasury record of a slot and sequence number, if any.
    pub fn try_get_treasury_utxo(&self, sidechain_number: u8, sequence: u64) -> (r: Option<
        &TreasuryUtxo,
    >)
        ensures
            match r {
                Some(u) => lookup(self@.treasury, (sidechain_number, sequence)) == Some(u@),
                None => lookup(self@.treasury, (sidechain_number, sequence)) is None,
            },
    {
        match self.find_treasury((sidechain_number, sequence)) {
            Some(i) => {
                proof {
                    lemma_lookup_at(self@.treasury, (sidechain_number, sequence), i as int);
                }
                Some(&self.treasury[i].1)
            },
            None => {
                proof {
                    lemma_lookup_none(self@.treasury, (sidechain_number, sequence));
                }
                None
            },
        }
    }

    /// Records a treasury transition under (slot, sequence number).
    pub fn put_treasury_utxo(&mut self, sidechain_number: u8, sequence: u64, utxo: TreasuryUtxo)
        ensures
            final(self)@ == (ChainStateV {
                treasury: store_kv(old(self)@.treasury, (sidechain_number, sequence), utxo@),
                ..old(self)@
            }),
    {
        let ghost pre = self@.treasury;
        let ghost key = (sidechain_number, sequence);
        match self.find_treasury((sidechain_number, sequence)) {
            Some(i) => {
                proof {
                    lemma_store_at(pre, key, utxo@, i as int);
                }
                let slot = &mut self.treasury[i];
                *slot = ((sidechain_number, sequence), utxo);
                proof {
                    assert(self@.treasury =~= pre.update(i as int, (key, utxo@)));
                    assert(self@ =~= ChainStateV {
                        treasury: store_kv(pre, key, utxo@),
                        ..old(self)@
                    });
                }
            },
            None => {
                proof {
                    lemma_store_absent(pre, key, utxo@);
                }
                self.treasury.push(((sidechain_number, sequence), utxo));
                proof {
                    assert(self@.treasury =~= pre.push((key, utxo@)));
                    assert(self@ =~= ChainStateV {
                        treasury: store_kv(pre, key, utxo@),
                        ..old(self)@
                    });
                }
            },
        }
    }
}

} // verus!
