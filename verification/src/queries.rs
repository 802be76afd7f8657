//! The derived-state queries the RPC surface serves: proposals, activated
//! sidechains, treasury tips and sequence numbers, block and header
//! records, the current tip, and two-way-peg history.

use vstd::prelude::*;

use crate::seqmap::lookup;
use crate::types::{BlockInfo, Ctip, Hash256, HeaderInfo, Sidechain, SidechainProposal,
    TwoWayPegData, TwoWayPegDataV};
use crate::validator::{Validator, ValidatorV};

verus! {

/// Why a block record could not be served.
#[derive(Clone, Copy, Debug, PartialEq, Eq, Structural)]
pub enum GetBlockInfoError {
    /// No record of the block being connected.
    MissingValue { block_hash: Hash256 },
}

/// Why a header record could not be served.
#[derive(Clone, Copy, Debug, PartialEq, Eq, Structural)]
pub enum GetHeaderInfoError {
    /// No header stored under the hash.
    MissingValue { block_hash: Hash256 },
}

/// Why two-way-peg history could not be served.
#[derive(Clone, Copy, Debug, PartialEq, Eq, Structural)]
pub enum GetTwoWayPegDataError {
    /// No header stored under the hash.
    MissingHeader { block_hash: Hash256 },
    /// A block on the walk was never connected.
    MissingBlockInfo { block_hash: Hash256 },
    /// The start block was not reached walking back from the end block.
    StartBlockNotReached,
}

/// One step of the backwards walk that collects two-way-peg history:
/// newest first, ending before `start_block` (or at a block whose parent
/// header is unknown), within `fuel` steps.
pub open spec fn peg_walk_spec(
    v: ValidatorV,
    start_block: Option<Hash256>,
    cur: Hash256,
    fuel: nat,
) -> Result<Seq<TwoWayPegDataV>, GetTwoWayPegDataError>
    decreases fuel,
{
    if start_block == Some(cur) {
        Ok(Seq::empty())
    } else {
        match lookup(v.headers, cur) {
            None => Err(GetTwoWayPegDataError::MissingHeader { block_hash: cur }),
            Some(h) => match lookup(v.block_infos, cur) {
                None => Err(GetTwoWayPegDataError::MissingBlockInfo { block_hash: cur }),
                Some(bi) => {
                    let here = TwoWayPegDataV { header_info: h, block_info: bi };
                    if lookup(v.headers, h.prev_block_hash) is None && start_block != Some(
                        h.prev_block_hash,
                    ) {
                        Ok(seq![here])
                    } else if fuel == 0 {
                        Err(GetTwoWayPegDataError::StartBlockNotReached)
                    } else {
                        match peg_walk_spec(v, start_block, h.prev_block_hash, (fuel - 1) as nat) {
                            Ok(rest) => Ok(seq![here] + rest),
                            Err(e) => Err(e),
                        }
                    }
                },
            },
        }
    }
}

impl Validator {
    /// Every stored sidechain proposal with its description hash.
    pub fn get_sidechain_proposals(&self) -> (r: Vec<(Hash256, SidechainProposal)>)
        ensures
            r@.len() == self@.chain.proposals.len(),
            forall|j: int| 0 <= j < r@.len() ==> (#[trigger] r@[j]).0
                == self@.chain.proposals[j].0 && r@[j].1@ == self@.chain.proposals[j].1,
    {
        let mut r: Vec<(Hash256, SidechainProposal)> = Vec::new();
        let mut i: usize = 0;
        while i < self.chain.proposals.len()
            invariant
                i <= self.chain.proposals@.len(),
                r@.len() == i,
                forall|j: int| 0 <= j < i ==> (#[trigger] r@[j]).0 == self@.chain.proposals[j].0
                    && r@[j].1@ == self@.chain.proposals[j].1,
            decreases self.chain.proposals@.len() - i,
        {
            let pair = &self.chain.proposals[i];
            r.push((pair.0, pair.1.duplicate()));
            i += 1;
        }
        r
    }

    /// Every activated sidechain, in slot-table order.
    pub fn get_sidechains(&self) -> (r: Vec<Sidechain>)
        ensures
            r@.len() == self@.chain.active.len(),
            forall|j: int| 0 <= j < r@.len() ==> (#[trigger] r@[j])@ == self@.chain.active[j].1,
    {
        let mut r: Vec<Sidechain> = Vec::new();
        let mut i: usize = 0;
        while i < self.chain.active.len()
            invariant
                i <= self.chain.active@.len(),
                r@.len() == i,
                forall|j: int| 0 <= j < i ==> (#[trigger] r@[j])@ == self@.chain.active[j].1,
            decreases self.chain.active@.len() - i,
        {
            r.push(self.chain.active[i].1.duplicate());
            i += 1;
        }
        r
    }

    /// The treasury UTXO of a slot, if one was recorded.
    pub fn get_ctip(&self, sidechain_number: u8) -> (r: Option<Ctip>)
        ensures
            r == lookup(self@.chain.ctips, sidechain_number),
    {
        self.chain.try_get_ctip(sidechain_number)
    }

    /// The sequence number of a slot's newest treasury record: one less
    /// than its count, since sequence numbers begin at zero.
    pub fn get_ctip_sequence_number(&self, sidechain_number: u8) -> (r: Option<u64>)
        requires
            self@.chain.inv(),
        ensures
            r == (match lookup(self@.chain.counts, sidechain_number) {
                Some(n) => Some((n - 1) as u64),
                None => None::<u64>,
            }),
    {
        match self.chain.try_get_count(sidechain_number) {
            Some(n) => Some(n - 1),
            None => None,
        }
    }

    /// The record of a connected block.
    pub fn get_block_info(&self, block_hash: &Hash256) -> (r: Result<BlockInfo, GetBlockInfoError>)
        ensures
            match r {
                Ok(bi) => lookup(self@.block_infos, *block_hash) == Some(bi@),
                Err(e) => lookup(self@.block_infos, *block_hash) is None && e
                    == (GetBlockInfoError::MissingValue { block_hash: *block_hash }),
            },
    {
        match self.try_get_block_info(block_hash) {
            Some(bi) => Ok(bi.duplicate()),
            None => Err(GetBlockInfoError::MissingValue { block_hash: *block_hash }),
        }
    }

    /// The header record of a known block.
    pub fn get_header_info(&self, block_hash: &Hash256) -> (r: Result<
        HeaderInfo,
        GetHeaderInfoError,
    >)
        ensures
            match r {
                Ok(h) => lookup(self@.headers, *block_hash) == Some(h),
                Err(e) => lookup(self@.headers, *block_hash) is None && e
                    == (GetHeaderInfoError::MissingValue { block_hash: *block_hash }),
            },
    {
        match self.try_get_header(block_hash) {
            Some(h) => Ok(h),
            None => Err(GetHeaderInfoError::MissingValue { block_hash: *block_hash }),
        }
    }

    /// The hash of the best known block, if any block was connected.
    pub fn get_mainchain_tip(&self) -> (r: Option<Hash256>)
        ensures
            r == self@.tip,
    {
        self.tip
    }

    /// The BMM commitments a connected block carried, if the block is
    /// known.
    pub fn try_get_bmm_commitments(&self, block_hash: &Hash256) -> (r: Option<Vec<(u8, Hash256)>>)
        ensures
            match r {
                Some(c) => lookup(self@.block_infos, *block_hash) is Some && c@ == lookup(
                    self@.block_infos,
                    *block_hash,
                )->Some_0.bmm_commitments,
                None => lookup(self@.block_infos, *block_hash) is None,
            },
    {
        match self.try_get_block_info(block_hash) {
            Some(bi) => {
                let mut c: Vec<(u8, Hash256)> = Vec::new();
                let mut i: usize = 0;
                while i < bi.bmm_commitments.len()
                    invariant
                        i <= bi.bmm_commitments@.len(),
                        c@ == bi.bmm_commitments@.subrange(0, i as int),
                    decreases bi.bmm_commitments@.len() - i,
                {
                    c.push(bi.bmm_commitments[i]);
                    proof {
                        assert(c@ =~= bi.bmm_commitments@.subrange(0, i + 1));
                    }
                    i += 1;
                }
                proof {
                    assert(c@ =~= bi.bmm_commitments@);
                }
                Some(c)
            },
            None => None,
        }
    }

    /// Two-way-peg history from just after `start_block` (genesis when
    /// absent) up to `end_block`, oldest first.
    pub fn get_two_way_peg_data(&self, start_block: Option<Hash256>, end_block: Hash256) -> (r:
        Result<Vec<TwoWayPegData>, GetTwoWayPegDataError>)
        ensures
            match peg_walk_spec(self@, start_block, end_block, self@.headers.len() as nat) {
                Ok(walk) => {
                    &&& r is Ok
                    &&& r->Ok_0@.len() == walk.len()
                    &&& forall|j: int| 0 <= j < walk.len() ==> (#[trigger] r->Ok_0@[j])@
                        == walk[walk.len() - 1 - j]
                },
                Err(e) => r is Err && r->Err_0 == e,
            },
    {
        let ghost v = self@;
        let ghost fuel0: nat = self@.headers.len() as nat;
        let mut newest_first: Vec<TwoWayPegData> = Vec::new();
        let mut cur = end_block;
        let mut fuel: usize = self.headers.len();
        loop
            invariant_except_break
                self@ == v,
                fuel0 == v.headers.len() as nat,
                (match peg_walk_spec(v, start_block, cur, fuel as nat) {
                    Ok(rest) => peg_walk_spec(v, start_block, end_block, fuel0) == Ok::<
                        _,
                        GetTwoWayPegDataError,
                    >(newest_first@.map_values(|d: TwoWayPegData| d@) + rest),
                    Err(e) => peg_walk_spec(v, start_block, end_block, fuel0) == Err::<
                        Seq<TwoWayPegDataV>,
                        _,
                    >(e),
                }),
            ensures
                self@ == v,
                fuel0 == v.headers.len() as nat,
                peg_walk_spec(v, start_block, end_block, fuel0) == Ok::<
                    _,
                    GetTwoWayPegDataError,
                >(newest_first@.map_values(|d: TwoWayPegData| d@)),
            decreases fuel,
        {
            let ghost pre = newest_first@.map_values(|d: TwoWayPegData| d@);
            if match start_block {
                Some(sb) => sb == cur,
                None => false,
            } {
                proof {
                    assert(peg_walk_spec(v, start_block, cur, fuel as nat) == Ok::<
                        _,
                        GetTwoWayPegDataError,
                    >(Seq::<TwoWayPegDataV>::empty()));
                    assert(pre + Seq::<TwoWayPegDataV>::empty() =~= pre);
                }
                break ;
            }
            let header = match self.try_get_header(&cur) {
                Some(h) => h,
                None => {
                    proof {
                        assert(peg_walk_spec(v, start_block, cur, fuel as nat) == Err::<
                            Seq<TwoWayPegDataV>,
                            _,
                        >(GetTwoWayPegDataError::MissingHeader { block_hash: cur }));
                    }
                    return Err(GetTwoWayPegDataError::MissingHeader { block_hash: cur });
                },
            };
            let info = match self.try_get_block_info(&cur) {
                Some(bi) => bi.duplicate(),
                None => {
                    proof {
                        assert(peg_walk_spec(v, start_block, cur, fuel as nat) == Err::<
                            Seq<TwoWayPegDataV>,
                            _,
                        >(GetTwoWayPegDataError::MissingBlockInfo { block_hash: cur }));
                    }
                    return Err(GetTwoWayPegDataError::MissingBlockInfo { block_hash: cur });
                },
            };
            let ghost herev = TwoWayPegDataV { header_info: header, block_info: info@ };
            newest_first.push(TwoWayPegData { header_info: header, block_info: info });
            proof {
                assert(newest_first@.map_values(|d: TwoWayPegData| d@) =~= pre.push(herev));
            }
            let parent_known = self.try_get_header(&header.prev_block_hash).is_some();
            let start_is_parent = match start_block {
                Some(sb) => sb == header.prev_block_hash,
                None => false,
            };
            if !parent_known && !start_is_parent {
                proof {
                    assert(peg_walk_spec(v, start_block, cur, fuel as nat) == Ok::<
                        _,
                        GetTwoWayPegDataError,
                    >(seq![herev]));
                    assert(pre + seq![herev] =~= pre.push(herev));
                }
                break ;
            }
            if fuel == 0 {
                proof {
                    assert(peg_walk_spec(v, start_block, cur, fuel as nat) == Err::<
                        Seq<TwoWayPegDataV>,
                        _,
                    >(GetTwoWayPegDataError::StartBlockNotReached));
                }
                return Err(GetTwoWayPegDataError::StartBlockNotReached);
            }
            proof {
                match peg_walk_spec(v, start_block, header.prev_block_hash, (fuel - 1) as nat) {
                    Ok(rest) => {
                        assert(peg_walk_spec(v, start_block, cur, fuel as nat) == Ok::<
                            _,
                            GetTwoWayPegDataError,
                        >(seq![herev] + rest));
                        assert(pre + (seq![herev] + rest) =~= pre.push(herev) + rest);
                    },
                    Err(e) => {
                        assert(peg_walk_spec(v, start_block, cur, fuel as nat) == Err::<
                            Seq<TwoWayPegDataV>,
                            _,
                        >(e));
                    },
                }
            }
            cur = header.prev_block_hash;
            fuel = fuel - 1;
        }
        // Reverse: the caller reads history oldest first.
        let mut r: Vec<TwoWayPegData> = Vec::new();
        let ghost walk = newest_first@.map_values(|d: TwoWayPegData| d@);
        let mut i: usize = newest_first.len();
        while i > 0
            invariant
                i <= newest_first@.len(),
                walk == newest_first@.map_values(|d: TwoWayPegData| d@),
                walk.len() == newest_first@.len(),
                r@.len() == walk.len() - i,
                forall|j: int| 0 <= j < r@.len() ==> (#[trigger] r@[j])@ == walk[walk.len() - 1
                    - j],
            decreases i,
        {
            i = i - 1;
            let item = &newest_first[i];
            r.push(TwoWayPegData { header_info: item.header_info, block_info: item.block_info.duplicate() });
            proof {
                assert(r@[r@.len() - 1]@ == walk[i as int]);
            }
        }
        Ok(r)
    }
}

} // verus!
