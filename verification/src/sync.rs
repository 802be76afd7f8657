//! The sync planner: which header or block is wanted next to follow the
//! mainchain to a given tip. The surrounding program fetches what the plan
//! names and hands it back; the planner itself reads the store alone, so a
//! pass over an already synced tip asks for nothing and changes nothing.

use vstd::prelude::*;

use crate::seqmap::{has_key, lookup, store_kv};
use crate::types::{Hash256, Header, HeaderInfo};
use crate::validator::{cumulative_work_of, Validator, ValidatorV};

verus! {

/// What the sync driver should do next.
#[derive(Clone, Copy, Debug, PartialEq, Eq, Structural)]
pub enum SyncAction {
    /// Fetch this block's header and hand it to `put_header`.
    FetchHeader(Hash256),
    /// Fetch this block and hand it to `connect_block`.
    FetchBlock(Hash256),
    /// Nothing is missing up to the requested tip.
    AlreadySynced,
}

/// The newest ancestor of `cur` whose header is missing, walking the
/// parent links of stored headers, within `fuel` steps. The walk ends at a
/// stored header of height zero.
pub open spec fn latest_missing_header_spec(
    headers: Seq<(Hash256, HeaderInfo)>,
    cur: Hash256,
    fuel: nat,
) -> Option<Hash256>
    decreases fuel,
{
    match lookup(headers, cur) {
        None => Some(cur),
        Some(h) => {
            if h.height == 0 || fuel == 0 {
                None
            } else {
                latest_missing_header_spec(headers, h.prev_block_hash, (fuel - 1) as nat)
            }
        },
    }
}

/// The stored-header ancestors of `cur` (itself included) that were never
/// connected, oldest first, stopping at a connected block, a missing
/// header, or a stored header of height zero; within `fuel` steps.
pub open spec fn missing_blocks_spec(v: ValidatorV, cur: Hash256, fuel: nat) -> Seq<Hash256>
    decreases fuel,
{
    match lookup(v.headers, cur) {
        None => Seq::empty(),
        Some(h) => {
            if lookup(v.block_infos, cur) is Some {
                Seq::empty()
            } else {
                let rest = if h.height == 0 || fuel == 0 {
                    Seq::empty()
                } else {
                    missing_blocks_spec(v, h.prev_block_hash, (fuel - 1) as nat)
                };
                rest.push(cur)
            }
        },
    }
}

impl Validator {
    /// Stores a header, if none is stored under its hash, with the
    /// cumulative work of the chain it extends.
    pub fn put_header(&mut self, header: Header, height: u32)
        ensures
            final(self)@ == if has_key(old(self)@.headers, header.block_hash) {
                old(self)@
            } else {
                ValidatorV {
                    headers: store_kv(
                        old(self)@.headers,
                        header.block_hash,
                        HeaderInfo {
                            block_hash: header.block_hash,
                            prev_block_hash: header.prev_block_hash,
                            height,
                            work: cumulative_work_of(
                                old(self)@.headers,
                                header.prev_block_hash,
                                header.work,
                            ),
                        },
                    ),
                    ..old(self)@
                }
            },
    {
        proof {
            crate::seqmap::lemma_lookup_has_key(self@.headers, header.block_hash);
        }
        if self.try_get_header(&header.block_hash).is_some() {
            return ;
        }
        let work = match self.try_get_header(&header.prev_block_hash) {
            Some(ph) => ph.work.add(header.work),
            None => header.work,
        };
        let record = HeaderInfo {
            block_hash: header.block_hash,
            prev_block_hash: header.prev_block_hash,
            height,
            work,
        };
        let ghost pre = self@.headers;
        proof {
            assert(!has_key(pre, record.block_hash));
            crate::seqmap::lemma_store_absent(pre, record.block_hash, record);
        }
        self.headers.push((record.block_hash, record));
        proof {
            assert(self@.headers =~= pre.push((record.block_hash, record)));
            assert(self@ =~~= (ValidatorV {
                headers: store_kv(pre, record.block_hash, record),
                ..old(self)@
            }));
        }
    }

    /// The newest ancestor of `from` whose header is still missing, if any.
    pub fn latest_missing_ancestor_header(&self, from: Hash256) -> (r: Option<Hash256>)
        ensures
            r == latest_missing_header_spec(
                self@.headers,
                from,
                self@.headers.len() as nat,
            ),
    {
        let ghost hs = self@.headers;
        let ghost fuel0: nat = self@.headers.len() as nat;
        let mut cur = from;
        let mut fuel: usize = self.headers.len();
        loop
            invariant_except_break
                self@.headers == hs,
                fuel0 == hs.len() as nat,
                latest_missing_header_spec(hs, cur, fuel as nat) == latest_missing_header_spec(
                    hs,
                    from,
                    fuel0,
                ),
            ensures
                self@.headers == hs,
                fuel0 == hs.len() as nat,
            decreases fuel,
        {
            match self.try_get_header(&cur) {
                None => {
                    return Some(cur);
                },
                Some(h) => {
                    if h.height == 0 || fuel == 0 {
                        return None;
                    }
                    cur = h.prev_block_hash;
                    fuel = fuel - 1;
                },
            }
        }
    }

    /// The known-but-unconnected ancestors of `tip`, oldest first.
    pub fn missing_blocks(&self, tip: Hash256) -> (r: Vec<Hash256>)
        ensures
            r@ == missing_blocks_spec(self@, tip, self@.headers.len() as nat),
    {
        let ghost v = self@;
        let ghost fuel0: nat = self@.headers.len() as nat;
        let mut newest_first: Vec<Hash256> = Vec::new();
        let mut cur = tip;
        let mut fuel: usize = self.headers.len();
        loop
            invariant_except_break
                self@ == v,
                fuel0 == v.headers.len() as nat,
                missing_blocks_spec(v, tip, fuel0) == missing_blocks_spec(v, cur, fuel as nat)
                    + newest_first@.reverse(),
            ensures
                self@ == v,
                fuel0 == v.headers.len() as nat,
                missing_blocks_spec(v, tip, fuel0) == newest_first@.reverse(),
            decreases fuel,
        {
            let ghost pre = newest_first@;
            match self.try_get_header(&cur) {
                None => {
                    proof {
                        assert(missing_blocks_spec(v, cur, fuel as nat) =~= Seq::<
                            Hash256,
                        >::empty());
                        assert(Seq::<Hash256>::empty() + pre.reverse() =~= pre.reverse());
                    }
                    break ;
                },
                Some(h) => {
                    if self.try_get_block_info(&cur).is_some() {
                        proof {
                            assert(missing_blocks_spec(v, cur, fuel as nat) =~= Seq::<
                                Hash256,
                            >::empty());
                            assert(Seq::<Hash256>::empty() + pre.reverse() =~= pre.reverse());
                        }
                        break ;
                    }
                    newest_first.push(cur);
                    proof {
                        assert(newest_first@.reverse() =~= seq![cur] + pre.reverse());
                    }
                    if h.height == 0 || fuel == 0 {
                        proof {
                            assert(missing_blocks_spec(v, cur, fuel as nat) =~= Seq::<
                                Hash256,
                            >::empty().push(cur));
                            assert(Seq::<Hash256>::empty().push(cur) + pre.reverse()
                                =~= newest_first@.reverse());
                        }
                        break ;
                    }
                    proof {
                        assert(missing_blocks_spec(v, cur, fuel as nat) =~= missing_blocks_spec(
                            v,
                            h.prev_block_hash,
                            (fuel - 1) as nat,
                        ).push(cur));
                        assert(missing_blocks_spec(v, h.prev_block_hash, (fuel - 1) as nat).push(
                            cur,
                        ) + pre.reverse() =~= missing_blocks_spec(
                            v,
                            h.prev_block_hash,
                            (fuel - 1) as nat,
                        ) + newest_first@.reverse());
                    }
                    cur = h.prev_block_hash;
                    fuel = fuel - 1;
                },
            }
        }
        // Oldest first for the caller.
        let ghost walk = missing_blocks_spec(v, tip, fuel0);
        let mut r: Vec<Hash256> = Vec::new();
        let mut i: usize = newest_first.len();
        while i > 0
            invariant
                i <= newest_first@.len(),
                walk == newest_first@.reverse(),
                walk.len() == newest_first@.len(),
                r@.len() == walk.len() - i,
                forall|j: int| 0 <= j < r@.len() ==> r@[j] == walk[j],
            decreases i,
        {
            i = i - 1;
            r.push(newest_first[i]);
            proof {
                assert(r@[r@.len() - 1] == newest_first@[i as int]);
                assert(walk[r@.len() - 1] == newest_first@[i as int]);
            }
        }
        proof {
            assert(r@ =~= walk);
        }
        r
    }

    /// What the sync driver should do next to reach `main_tip`: fetch the
    /// newest missing ancestor header; else connect the oldest known,
    /// unconnected ancestor block; else nothing, the store is already
    /// synced to that tip.
    pub fn sync_step(&self, main_tip: Hash256) -> (r: SyncAction)
        ensures
            match r {
                SyncAction::FetchHeader(h) => latest_missing_header_spec(
                    self@.headers,
                    main_tip,
                    self@.headers.len() as nat,
                ) == Some(h),
                SyncAction::FetchBlock(b) => {
                    &&& latest_missing_header_spec(
                        self@.headers,
                        main_tip,
                        self@.headers.len() as nat,
                    ) is None
                    &&& missing_blocks_spec(self@, main_tip, self@.headers.len() as nat).len()
                        > 0
                    &&& b == missing_blocks_spec(
                        self@,
                        main_tip,
                        self@.headers.len() as nat,
                    )[0]
                },
                SyncAction::AlreadySynced => {
                    &&& latest_missing_header_spec(
                        self@.headers,
                        main_tip,
                        self@.headers.len() as nat,
                    ) is None
                    &&& missing_blocks_spec(self@, main_tip, self@.headers.len() as nat).len()
                        == 0
                },
            },
    {
        if let Some(h) = self.latest_missing_ancestor_header(main_tip) {
            return SyncAction::FetchHeader(h);
        }
        let blocks = self.missing_blocks(main_tip);
        if blocks.len() > 0 {
            SyncAction::FetchBlock(blocks[0])
        } else {
            SyncAction::AlreadySynced
        }
    }
}

/// A store synced to `main_tip` plans no fetch and no connect: any plan
/// that meets `sync_step`'s contract over such a store is the do-nothing
/// plan, so a second sync pass over the same tip asks for nothing, changes
/// no table, and emits no event.
pub proof fn lemma_sync_idempotent(v: ValidatorV, main_tip: Hash256, r: SyncAction)
    requires
        latest_missing_header_spec(v.headers, main_tip, v.headers.len() as nat) is None,
        missing_blocks_spec(v, main_tip, v.headers.len() as nat).len() == 0,
        match r {
            SyncAction::FetchHeader(h) => latest_missing_header_spec(
                v.headers,
                main_tip,
                v.headers.len() as nat,
            ) == Some(h),
            SyncAction::FetchBlock(b) => missing_blocks_spec(
                v,
                main_tip,
                v.headers.len() as nat,
            ).len() > 0,
            SyncAction::AlreadySynced => true,
        },
    ensures
        r is AlreadySynced,
{
}

} // verus!
