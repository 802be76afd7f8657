//! The block connector and disconnector over the whole store: sidechain
//! tables, block and header records, accepted BMM hashes by height, the
//! current tip, the undo journal and the event log. Connecting commits a
//! block's effects as one step; disconnecting restores the store exactly
//! as it stood before the connect.

use vstd::prelude::*;

use crate::engine::{apply_block, apply_block_spec, ConnectBlockError};
use crate::seqmap::{has_key, lemma_lookup_at, lemma_lookup_none, lemma_remove_at,
    lemma_remove_absent, lemma_store_absent, lemma_store_at, lookup, remove_kv, store_kv,
    unique_keys};
use crate::state::{ChainState, ChainStateV};
use crate::types::{Block, BlockInfo, BlockInfoV, BlockV, Event, EventV, Hash256, HeaderInfo,
    Work};

verus! {

/// How many per-height lists of accepted BMM hashes are kept: about one
/// week of blocks.
pub const MAX_BMM_BLOCK_DEPTH: u64 = 6 * 24 * 7;

/// Why a block could not be disconnected.
#[derive(Clone, Copy, Debug, PartialEq, Eq, Structural)]
pub enum DisconnectBlockError {
    /// Only the most recently connected block can be disconnected.
    NotTip { block_hash: Hash256 },
}

/// What one connect wrote, kept to restore the store on disconnect.
pub struct UndoRecord {
    pub chain: ChainState,
    pub bmm_by_height: Vec<(u32, Vec<Hash256>)>,
    pub tip: Option<Hash256>,
    pub current_height: Option<u32>,
    pub header_written: bool,
    pub prev_block_info: Option<BlockInfo>,
}

#[verifier::ext_equal]
pub ghost struct UndoRecordV {
    pub chain: ChainStateV,
    pub bmm_by_height: Seq<(u32, Seq<Hash256>)>,
    pub tip: Option<Hash256>,
    pub current_height: Option<u32>,
    pub header_written: bool,
    pub prev_block_info: Option<BlockInfoV>,
}

/// The view of a height table.
pub open spec fn bmm_pairs_view(s: Seq<(u32, Vec<Hash256>)>) -> Seq<(u32, Seq<Hash256>)> {
    s.map_values(|p: (u32, Vec<Hash256>)| (p.0, p.1@))
}

/// The view of a block-record table.
pub open spec fn bi_pairs_view(s: Seq<(Hash256, BlockInfo)>) -> Seq<(Hash256, BlockInfoV)> {
    s.map_values(|p: (Hash256, BlockInfo)| (p.0, p.1@))
}

/// The view of the undo journal.
pub open spec fn undo_pairs_view(s: Seq<(Hash256, UndoRecord)>) -> Seq<(Hash256, UndoRecordV)> {
    s.map_values(|p: (Hash256, UndoRecord)| (p.0, p.1@))
}

/// The view of the event log.
pub open spec fn events_view(s: Seq<Event>) -> Seq<EventV> {
    s.map_values(|e: Event| e@)
}

impl View for UndoRecord {
    type V = UndoRecordV;

    open spec fn view(&self) -> UndoRecordV {
        UndoRecordV {
            chain: self.chain@,
            bmm_by_height: bmm_pairs_view(self.bmm_by_height@),
            tip: self.tip,
            current_height: self.current_height,
            header_written: self.header_written,
            prev_block_info: match &self.prev_block_info {
                Some(bi) => Some(bi@),
                None => None,
            },
        }
    }
}

/// The enforcer's state as a whole.
pub struct Validator {
    pub chain: ChainState,
    pub block_infos: Vec<(Hash256, BlockInfo)>,
    pub headers: Vec<(Hash256, HeaderInfo)>,
    pub bmm_by_height: Vec<(u32, Vec<Hash256>)>,
    pub tip: Option<Hash256>,
    pub current_height: Option<u32>,
    pub undo: Vec<(Hash256, UndoRecord)>,
    pub events: Vec<Event>,
}

#[verifier::ext_equal]
pub ghost struct ValidatorV {
    pub chain: ChainStateV,
    pub block_infos: Seq<(Hash256, BlockInfoV)>,
    pub headers: Seq<(Hash256, HeaderInfo)>,
    pub bmm_by_height: Seq<(u32, Seq<Hash256>)>,
    pub tip: Option<Hash256>,
    pub current_height: Option<u32>,
    pub undo: Seq<(Hash256, UndoRecordV)>,
    pub events: Seq<EventV>,
}

impl View for Validator {
    type V = ValidatorV;

    open spec fn view(&self) -> ValidatorV {
        ValidatorV {
            chain: self.chain@,
            block_infos: bi_pairs_view(self.block_infos@),
            headers: self.headers@,
            bmm_by_height: bmm_pairs_view(self.bmm_by_height@),
            tip: self.tip,
            current_height: self.current_height,
            undo: undo_pairs_view(self.undo@),
            events: events_view(self.events@),
        }
    }
}

/// The durable part of the state: the tables a disconnect must restore.
/// The undo journal and the event log stand outside it.
#[verifier::ext_equal]
pub ghost struct StoreV {
    pub chain: ChainStateV,
    pub block_infos: Seq<(Hash256, BlockInfoV)>,
    pub headers: Seq<(Hash256, HeaderInfo)>,
    pub bmm_by_height: Seq<(u32, Seq<Hash256>)>,
    pub tip: Option<Hash256>,
    pub current_height: Option<u32>,
}

impl ValidatorV {
    /// The durable tables.
    pub open spec fn store(self) -> StoreV {
        StoreV {
            chain: self.chain,
            block_infos: self.block_infos,
            headers: self.headers,
            bmm_by_height: self.bmm_by_height,
            tip: self.tip,
            current_height: self.current_height,
        }
    }

    /// Every table keyed without repetition, and the sidechain state sound.
    pub open spec fn inv(self) -> bool {
        &&& self.chain.inv()
        &&& unique_keys(self.block_infos)
        &&& unique_keys(self.headers)
        &&& unique_keys(self.bmm_by_height)
    }
}

/// The committed hashes of a block's BMM commitments, in order.
pub open spec fn bmm_hashes_of(commitments: Seq<(u8, Hash256)>) -> Seq<Hash256> {
    commitments.map_values(|p: (u8, Hash256)| p.1)
}

/// The smallest key of a non-empty height table.
pub open spec fn min_key_u32<V>(s: Seq<(u32, V)>) -> u32
    recommends
        s.len() > 0,
    decreases s.len(),
{
    if s.len() <= 1 {
        s[0].0
    } else {
        let m = min_key_u32(s.drop_first());
        if s[0].0 <= m {
            s[0].0
        } else {
            m
        }
    }
}

/// The smallest key is a key, and no key is smaller.
pub proof fn lemma_min_key_u32<V>(s: Seq<(u32, V)>)
    requires
        s.len() > 0,
    ensures
        exists|i: int| 0 <= i < s.len() && s[i].0 == min_key_u32(s),
        forall|i: int| 0 <= i < s.len() ==> s[i].0 >= min_key_u32(s),
    decreases s.len(),
{
    if s.len() == 1 {
        assert(s[0].0 == min_key_u32(s));
    } else {
        lemma_min_key_u32(s.drop_first());
        let m = min_key_u32(s.drop_first());
        let j = choose|j: int| 0 <= j < s.drop_first().len() && s.drop_first()[j].0 == m;
        if s[0].0 <= m {
            assert(s[0].0 == min_key_u32(s));
        } else {
            assert(s[j + 1].0 == min_key_u32(s));
        }
        assert forall|i: int| 0 <= i < s.len() implies s[i].0 >= min_key_u32(s) by {
            if i > 0 {
                assert(s.drop_first()[i - 1].0 >= m);
            }
        }
    }
}

/// What the height table holds after recording this block's accepted
/// hashes: the oldest height leaves once the kept depth is exceeded.
pub open spec fn bmm_table_after(
    bmm: Seq<(u32, Seq<Hash256>)>,
    height: u32,
    hashes: Seq<Hash256>,
) -> Seq<(u32, Seq<Hash256>)> {
    let stored = store_kv(bmm, height, hashes);
    if stored.len() > MAX_BMM_BLOCK_DEPTH {
        remove_kv(stored, min_key_u32(stored))
    } else {
        stored
    }
}

/// The cumulative work of a block given the header table: the parent's
/// cumulative work plus the block's own, or its own where no parent is
/// known.
pub open spec fn cumulative_work_of(
    headers: Seq<(Hash256, HeaderInfo)>,
    prev_block_hash: Hash256,
    work: Work,
) -> Work {
    match lookup(headers, prev_block_hash) {
        Some(ph) => crate::types::work_add_spec(ph.work, work),
        None => work,
    }
}

/// Whether the tip moves to the new block: it does when no tip is set, the
/// tip's header is unknown, or the new cumulative work is strictly
/// greater.
pub open spec fn tip_advances(
    headers: Seq<(Hash256, HeaderInfo)>,
    tip: Option<Hash256>,
    new_work: Work,
) -> bool {
    match tip {
        None => true,
        Some(t) => match lookup(headers, t) {
            Some(th) => th.work.value() < new_work.value(),
            None => true,
        },
    }
}

/// What connecting a block does to the enforcer's state as a whole.
pub open spec fn connect_spec(v: ValidatorV, b: BlockV, height: u32) -> Result<
    ValidatorV,
    ConnectBlockError,
> {
    match apply_block_spec(v.chain, b, height) {
        Err(e) => Err(e),
        Ok((chain2, info)) => {
            let block_hash = b.header.block_hash;
            let bmm2 = bmm_table_after(v.bmm_by_height, height, bmm_hashes_of(
                info.bmm_commitments,
            ));
            let header_written = !has_key(v.headers, block_hash);
            let new_header = HeaderInfo {
                block_hash,
                prev_block_hash: b.header.prev_block_hash,
                height,
                work: cumulative_work_of(v.headers, b.header.prev_block_hash, b.header.work),
            };
            let headers2 = if header_written {
                store_kv(v.headers, block_hash, new_header)
            } else {
                v.headers
            };
            let stored_header = if header_written {
                new_header
            } else {
                lookup(v.headers, block_hash)->Some_0
            };
            let advances = tip_advances(headers2, v.tip, stored_header.work);
            let undo_rec = UndoRecordV {
                chain: v.chain,
                bmm_by_height: v.bmm_by_height,
                tip: v.tip,
                current_height: v.current_height,
                header_written,
                prev_block_info: lookup(v.block_infos, block_hash),
            };
            Ok(
                ValidatorV {
                    chain: chain2,
                    block_infos: store_kv(v.block_infos, block_hash, info),
                    headers: headers2,
                    bmm_by_height: bmm2,
                    tip: if advances {
                        Some(block_hash)
                    } else {
                        v.tip
                    },
                    current_height: if advances {
                        Some(height)
                    } else {
                        v.current_height
                    },
                    undo: v.undo.push((block_hash, undo_rec)),
                    events: v.events.push(
                        EventV::ConnectBlock { header_info: stored_header, block_info: info },
                    ),
                },
            )
        },
    }
}

/// What disconnecting a block does: refused unless it is the most recently
/// connected block; else every durable table returns to its pre-connect
/// state and a disconnect event is logged.
pub open spec fn disconnect_spec(v: ValidatorV, block_hash: Hash256) -> Result<
    ValidatorV,
    DisconnectBlockError,
> {
    if v.undo.len() == 0 || v.undo.last().0 != block_hash {
        Err(DisconnectBlockError::NotTip { block_hash })
    } else {
        let rec = v.undo.last().1;
        Ok(
            ValidatorV {
                chain: rec.chain,
                block_infos: match rec.prev_block_info {
                    Some(bi) => store_kv(v.block_infos, block_hash, bi),
                    None => remove_kv(v.block_infos, block_hash),
                },
                headers: if rec.header_written {
                    remove_kv(v.headers, block_hash)
                } else {
                    v.headers
                },
                bmm_by_height: rec.bmm_by_height,
                tip: rec.tip,
                current_height: rec.current_height,
                undo: v.undo.drop_last(),
                events: v.events.push(EventV::DisconnectBlock { block_hash }),
            },
        )
    }
}

/// A fresh vector with the same identifiers.
fn dup_hashes(v: &Vec<Hash256>) -> (r: Vec<Hash256>)
    ensures
        r@ == v@,
{
    let mut r: Vec<Hash256> = Vec::new();
    let mut i: usize = 0;
    while i < v.len()
        invariant
            i <= v@.len(),
            r@ == v@.subrange(0, i as int),
        decreases v@.len() - i,
    {
        r.push(v[i]);
        proof {
            assert(r@ =~= v@.subrange(0, i + 1));
        }
        i += 1;
    }
    proof {
        assert(r@ =~= v@);
    }
    r
}

/// A fresh height table with the same lists.
fn dup_bmm_table(v: &Vec<(u32, Vec<Hash256>)>) -> (r: Vec<(u32, Vec<Hash256>)>)
    ensures
        bmm_pairs_view(r@) == bmm_pairs_view(v@),
{
    let mut r: Vec<(u32, Vec<Hash256>)> = Vec::new();
    let mut i: usize = 0;
    while i < v.len()
        invariant
            i <= v@.len(),
            r@.len() == i,
            forall|j: int| 0 <= j < i ==> (#[trigger] r@[j]).0 == v@[j].0 && r@[j].1@
                == v@[j].1@,
        decreases v@.len() - i,
    {
        let pair = &v[i];
        r.push((pair.0, dup_hashes(&pair.1)));
        i += 1;
    }
    proof {
        assert(bmm_pairs_view(r@) =~~= bmm_pairs_view(v@));
    }
    r
}

impl Validator {
    /// A fresh enforcer with nothing stored: the genesis state.
    pub fn new() -> (r: Validator)
        ensures
            r@.chain.inv(),
            r@.store() == (StoreV {
                chain: r@.chain,
                block_infos: Seq::empty(),
                headers: Seq::empty(),
                bmm_by_height: Seq::empty(),
                tip: None,
                current_height: None,
            }),
            r@.chain.proposals.len() == 0,
            r@.chain.active.len() == 0,
            r@.chain.pending.len() == 0,
            r@.chain.ctips.len() == 0,
            r@.chain.treasury.len() == 0,
            r@.chain.counts.len() == 0,
            r@.undo.len() == 0,
            r@.events.len() == 0,
            r@.inv(),
    {
        let r = Validator {
            chain: ChainState::new(),
            block_infos: Vec::new(),
            headers: Vec::new(),
            bmm_by_height: Vec::new(),
            tip: None,
            current_height: None,
            undo: Vec::new(),
            events: Vec::new(),
        };
        proof {
            assert(r@.block_infos =~= Seq::<(Hash256, BlockInfoV)>::empty());
            assert(r@.bmm_by_height =~= Seq::<(u32, Seq<Hash256>)>::empty());
            assert(r@.undo =~= Seq::<(Hash256, UndoRecordV)>::empty());
            assert(r@.events =~= Seq::<EventV>::empty());
        }
        r
    }

    fn find_block_info(&self, block_hash: &Hash256) -> (r: Option<usize>)
        ensures
            match r {
                Some(i) => {
                    &&& i < self@.block_infos.len()
                    &&& self@.block_infos[i as int].0 == *block_hash
                    &&& forall|j: int| 0 <= j < i ==> self@.block_infos[j].0 != *block_hash
                },
                None => forall|j: int|
                    0 <= j < self@.block_infos.len() ==> self@.block_infos[j].0 != *block_hash,
            },
    {
        let mut i: usize = 0;
        while i < self.block_infos.len()
            invariant
                i <= self.block_infos@.len(),
                forall|j: int| 0 <= j < i ==> self@.block_infos[j].0 != *block_hash,
            decreases self.block_infos@.len() - i,
        {
            if self.block_infos[i].0 == *block_hash {
                assert(self@.block_infos[i as int].0 == *block_hash);
                return Some(i);
            }
            assert(self@.block_infos[i as int].0 != *block_hash);
            i += 1;
        }
        None
    }

    /// The record of a connected block, if any.
    pub fn try_get_block_info(&self, block_hash: &Hash256) -> (r: Option<&BlockInfo>)
        ensures
            match r {
                Some(bi) => lookup(self@.block_infos, *block_hash) == Some(bi@),
                None => lookup(self@.block_infos, *block_hash) is None,
            },
    {
        match self.find_block_info(block_hash) {
            Some(i) => {
                proof {
                    lemma_lookup_at(self@.block_infos, *block_hash, i as int);
                }
                Some(&self.block_infos[i].1)
            },
            None => {
                proof {
                    lemma_lookup_none(self@.block_infos, *block_hash);
                }
                None
            },
        }
    }

    fn put_block_info(&mut self, block_hash: Hash256, info: BlockInfo)
        ensures
            final(self)@ == (ValidatorV {
                block_infos: store_kv(old(self)@.block_infos, block_hash, info@),
                ..old(self)@
            }),
    {
        let ghost pre = self@.block_infos;
        let ghost infov = info@;
        match self.find_block_info(&block_hash) {
            Some(i) => {
                proof {
                    lemma_store_at(pre, block_hash, infov, i as int);
                }
                let slot = &mut self.block_infos[i];
                *slot = (block_hash, info);
                proof {
                    assert(self@.block_infos =~~= pre.update(i as int, (block_hash, infov)));
                    assert(self@ =~~= (ValidatorV {
                        block_infos: store_kv(pre, block_hash, infov),
                        ..old(self)@
                    }));
                }
            },
            None => {
                proof {
                    lemma_store_absent(pre, block_hash, infov);
                }
                self.block_infos.push((block_hash, info));
                proof {
                    assert(self@.block_infos =~~= pre.push((block_hash, infov)));
                    assert(self@ =~~= (ValidatorV {
                        block_infos: store_kv(pre, block_hash, infov),
                        ..old(self)@
                    }));
                }
            },
        }
    }

    fn remove_block_info(&mut self, block_hash: &Hash256)
        ensures
            final(self)@ == (ValidatorV {
                block_infos: remove_kv(old(self)@.block_infos, *block_hash),
                ..old(self)@
            }),
    {
        let ghost pre = self@.block_infos;
        match self.find_block_info(block_hash) {
            Some(i) => {
                proof {
                    lemma_remove_at(pre, *block_hash, i as int);
                }
                let _ = self.block_infos.remove(i);
                proof {
                    assert(self@.block_infos =~~= pre.remove(i as int));
                    assert(self@ =~~= (ValidatorV {
                        block_infos: remove_kv(pre, *block_hash),
                        ..old(self)@
                    }));
                }
            },
            None => {
                proof {
                    lemma_remove_absent(pre, *block_hash);
                    assert(self@ =~~= (ValidatorV {
                        block_infos: remove_kv(pre, *block_hash),
                        ..old(self)@
                    }));
                }
            },
        }
    }

    fn find_header(&self, block_hash: &Hash256) -> (r: Option<usize>)
        ensures
            match r {
                Some(i) => {
                    &&& i < self@.headers.len()
                    &&& self@.headers[i as int].0 == *block_hash
                    &&& forall|j: int| 0 <= j < i ==> self@.headers[j].0 != *block_hash
                },
                None => forall|j: int|
                    0 <= j < self@.headers.len() ==> self@.headers[j].0 != *block_hash,
            },
    {
        let mut i: usize = 0;
        while i < self.headers.len()
            invariant
                i <= self.headers@.len(),
                forall|j: int| 0 <= j < i ==> self@.headers[j].0 != *block_hash,
            decreases self.headers@.len() - i,
        {
            if self.headers[i].0 == *block_hash {
                return Some(i);
            }
            i += 1;
        }
        None
    }

    /// The header record of a known block, if any.
    pub fn try_get_header(&self, block_hash: &Hash256) -> (r: Option<HeaderInfo>)
        ensures
            r == lookup(self@.headers, *block_hash),
    {
        match self.find_header(block_hash) {
            Some(i) => {
                proof {
                    lemma_lookup_at(self@.headers, *block_hash, i as int);
                }
                Some(self.headers[i].1)
            },
            None => {
                proof {
                    lemma_lookup_none(self@.headers, *block_hash);
                }
                None
            },
        }
    }

    fn put_header_record(&mut self, block_hash: Hash256, header: HeaderInfo)
        ensures
            final(self)@ == (ValidatorV {
                headers: store_kv(old(self)@.headers, block_hash, header),
                ..old(self)@
            }),
    {
        let ghost pre = self@.headers;
        match self.find_header(&block_hash) {
            Some(i) => {
                proof {
                    lemma_store_at(pre, block_hash, header, i as int);
                }
                let slot = &mut self.headers[i];
                *slot = (block_hash, header);
                proof {
                    assert(self@.headers =~= pre.update(i as int, (block_hash, header)));
                    assert(self@ =~~= (ValidatorV {
                        headers: store_kv(pre, block_hash, header),
                        ..old(self)@
                    }));
                }
            },
            None => {
                proof {
                    lemma_store_absent(pre, block_hash, header);
                }
                self.headers.push((block_hash, header));
                proof {
                    assert(self@.headers =~= pre.push((block_hash, header)));
                    assert(self@ =~~= (ValidatorV {
                        headers: store_kv(pre, block_hash, header),
                        ..old(self)@
                    }));
                }
            },
        }
    }

    fn remove_header(&mut self, block_hash: &Hash256)
        ensures
            final(self)@ == (ValidatorV {
                headers: remove_kv(old(self)@.headers, *block_hash),
                ..old(self)@
            }),
    {
        let ghost pre = self@.headers;
        match self.find_header(block_hash) {
            Some(i) => {
                proof {
                    lemma_remove_at(pre, *block_hash, i as int);
                }
                let _ = self.headers.remove(i);
                proof {
                    assert(self@.headers =~= pre.remove(i as int));
                    assert(self@ =~~= (ValidatorV {
                        headers: remove_kv(pre, *block_hash),
                        ..old(self)@
                    }));
                }
            },
            None => {
                proof {
                    lemma_remove_absent(pre, *block_hash);
                    assert(self@ =~~= (ValidatorV {
                        headers: remove_kv(pre, *block_hash),
                        ..old(self)@
                    }));
                }
            },
        }
    }

    fn find_bmm(&self, height: u32) -> (r: Option<usize>)
        ensures
            match r {
                Some(i) => {
                    &&& i < self@.bmm_by_height.len()
                    &&& self@.bmm_by_height[i as int].0 == height
                    &&& forall|j: int| 0 <= j < i ==> self@.bmm_by_height[j].0 != height
                },
                None => forall|j: int|
                    0 <= j < self@.bmm_by_height.len() ==> self@.bmm_by_height[j].0 != height,
            },
    {
        let mut i: usize = 0;
        while i < self.bmm_by_height.len()
            invariant
                i <= self.bmm_by_height@.len(),
                forall|j: int| 0 <= j < i ==> self@.bmm_by_height[j].0 != height,
            decreases self.bmm_by_height@.len() - i,
        {
            if self.bmm_by_height[i].0 == height {
                assert(self@.bmm_by_height[i as int].0 == height);
                return Some(i);
            }
            assert(self@.bmm_by_height[i as int].0 != height);
            i += 1;
        }
        None
    }

    fn put_bmm(&mut self, height: u32, hashes: Vec<Hash256>)
        ensures
            final(self)@ == (ValidatorV {
                bmm_by_height: store_kv(old(self)@.bmm_by_height, height, hashes@),
                ..old(self)@
            }),
    {
        let ghost pre = self@.bmm_by_height;
        let ghost hashesv = hashes@;
        match self.find_bmm(height) {
            Some(i) => {
                proof {
                    lemma_store_at(pre, height, hashesv, i as int);
                }
                let slot = &mut self.bmm_by_height[i];
                *slot = (height, hashes);
                proof {
                    assert(self@.bmm_by_height =~~= pre.update(i as int, (height, hashesv)));
                    assert(self@ =~~= (ValidatorV {
                        bmm_by_height: store_kv(pre, height, hashesv),
                        ..old(self)@
                    }));
                }
            },
            None => {
                proof {
                    lemma_store_absent(pre, height, hashesv);
                }
                self.bmm_by_height.push((height, hashes));
                proof {
                    assert(self@.bmm_by_height =~~= pre.push((height, hashesv)));
                    assert(self@ =~~= (ValidatorV {
                        bmm_by_height: store_kv(pre, height, hashesv),
                        ..old(self)@
                    }));
                }
            },
        }
    }

    fn remove_bmm(&mut self, height: u32)
        ensures
            final(self)@ == (ValidatorV {
                bmm_by_height: remove_kv(old(self)@.bmm_by_height, height),
                ..old(self)@
            }),
    {
        let ghost pre = self@.bmm_by_height;
        match self.find_bmm(height) {
            Some(i) => {
                proof {
                    lemma_remove_at(pre, height, i as int);
                }
                let _ = self.bmm_by_height.remove(i);
                proof {
                    assert(self@.bmm_by_height =~~= pre.remove(i as int));
                    assert(self@ =~~= (ValidatorV {
                        bmm_by_height: remove_kv(pre, height),
                        ..old(self)@
                    }));
                }
            },
            None => {
                proof {
                    lemma_remove_absent(pre, height);
                    assert(self@ =~~= (ValidatorV {
                        bmm_by_height: remove_kv(pre, height),
                        ..old(self)@
                    }));
                }
            },
        }
    }

    /// The smallest height in the (non-empty) height table.
    fn min_bmm_height(&self) -> (r: u32)
        requires
            self.bmm_by_height@.len() > 0,
        ensures
            r == min_key_u32(self@.bmm_by_height),
    {
        proof {
            lemma_min_key_u32(self@.bmm_by_height);
        }
        let mut m: u32 = self.bmm_by_height[0].0;
        let mut i: usize = 1;
        proof {
            assert(self@.bmm_by_height[0].0 == self.bmm_by_height@[0].0);
        }
        while i < self.bmm_by_height.len()
            invariant
                1 <= i <= self.bmm_by_height@.len(),
                exists|j: int| 0 <= j < i && self@.bmm_by_height[j].0 == m,
                forall|j: int| 0 <= j < i ==> self@.bmm_by_height[j].0 >= m,
            decreases self.bmm_by_height@.len() - i,
        {
            if self.bmm_by_height[i].0 < m {
                m = self.bmm_by_height[i].0;
                proof {
                    assert(self@.bmm_by_height[i as int].0 == m);
                }
            }
            proof {
                assert(self@.bmm_by_height[i as int].0 >= m);
            }
            i += 1;
        }
        proof {
            let spec_min = min_key_u32(self@.bmm_by_height);
            let j = choose|j: int|
                0 <= j < self@.bmm_by_height.len() && self@.bmm_by_height[j].0 == spec_min;
            let j2 = choose|j2: int|
                0 <= j2 < self@.bmm_by_height.len() && self@.bmm_by_height[j2].0 == m;
            assert(self@.bmm_by_height[j].0 >= m);
            assert(self@.bmm_by_height[j2].0 >= spec_min);
        }
        m
    }

    /// Connects a block: applies its messages, sweeps, and transactions;
    /// records its BMM hashes, header and block record; advances the tip
    /// when the cumulative work grows; journals an undo record; and logs a
    /// connect event. On an error nothing changes.
    pub fn connect_block(&mut self, block: &Block, height: u32) -> (r: Result<
        (),
        ConnectBlockError,
    >)
        requires
            block@.txdata.len() >= 1,
        ensures
            match connect_spec(old(self)@, block@, height) {
                Ok(v2) => r is Ok && final(self)@ == v2,
                Err(e) => r is Err && r->Err_0 == e && final(self)@ == old(self)@,
            },
    {
        let ghost v0 = self@;
        let mut work_chain = self.chain.duplicate();
        let info = match apply_block(&mut work_chain, block, height) {
            Err(e) => {
                return Err(e);
            },
            Ok(i) => i,
        };
        let ghost infov = info@;
        let block_hash = block.header.block_hash;
        // Undo snapshots, taken before anything is written.
        let undo_bmm = dup_bmm_table(&self.bmm_by_height);
        let undo_tip = self.tip;
        let undo_height = self.current_height;
        let prev_block_info: Option<BlockInfo> = match self.try_get_block_info(&block_hash) {
            Some(bi) => Some(bi.duplicate()),
            None => None,
        };
        // This block's accepted BMM hashes, by height, pruned in depth.
        let mut hashes: Vec<Hash256> = Vec::new();
        let mut i: usize = 0;
        while i < info.bmm_commitments.len()
            invariant
                i <= info.bmm_commitments@.len(),
                info@ == infov,
                hashes@ == bmm_hashes_of(infov.bmm_commitments.take(i as int)),
            decreases info.bmm_commitments@.len() - i,
        {
            hashes.push(info.bmm_commitments[i].1);
            proof {
                assert(hashes@ =~= bmm_hashes_of(infov.bmm_commitments.take(i + 1)));
            }
            i += 1;
        }
        proof {
            assert(infov.bmm_commitments.take(infov.bmm_commitments.len() as int)
                =~= infov.bmm_commitments);
        }
        self.put_bmm(height, hashes);
        if self.bmm_by_height.len() as u64 > MAX_BMM_BLOCK_DEPTH {
            let m = self.min_bmm_height();
            self.remove_bmm(m);
        }
        // Header record, written once.
        let header_written = self.try_get_header(&block_hash).is_none();
        proof {
            crate::seqmap::lemma_lookup_has_key(v0.headers, block_hash);
            assert(header_written == !has_key(v0.headers, block_hash));
        }
        if header_written {
            let cumulative = match self.try_get_header(&block.header.prev_block_hash) {
                Some(ph) => ph.work.add(block.header.work),
                None => block.header.work,
            };
            self.put_header_record(
                block_hash,
                HeaderInfo {
                    block_hash,
                    prev_block_hash: block.header.prev_block_hash,
                    height,
                    work: cumulative,
                },
            );
        }
        let ghost new_header_spec = HeaderInfo {
            block_hash,
            prev_block_hash: block@.header.prev_block_hash,
            height,
            work: cumulative_work_of(v0.headers, block@.header.prev_block_hash, block@.header.work),
        };
        proof {
            if !has_key(v0.headers, block_hash) {
                crate::seqmap::lemma_lookup_store_same(v0.headers, block_hash, new_header_spec);
            } else {
                crate::seqmap::lemma_lookup_has_key(v0.headers, block_hash);
            }
        }
        let stored_header = match self.try_get_header(&block_hash) {
            Some(h) => h,
            None => {
                proof {
                    crate::seqmap::lemma_lookup_store_same(
                        v0.headers,
                        block_hash,
                        HeaderInfo {
                            block_hash,
                            prev_block_hash: block@.header.prev_block_hash,
                            height,
                            work: cumulative_work_of(
                                v0.headers,
                                block@.header.prev_block_hash,
                                block@.header.work,
                            ),
                        },
                    );
                    crate::seqmap::lemma_lookup_has_key(v0.headers, block_hash);
                    assert(false);
                }
                vstd::pervasive::unreached()
            },
        };
        // Tip: follow the greatest cumulative work.
        let tip_work: Option<Work> = match self.tip {
            Some(t) => match self.try_get_header(&t) {
                Some(th) => Some(th.work),
                None => None,
            },
            None => None,
        };
        let advances = match tip_work {
            Some(w) => w.lt(stored_header.work),
            None => true,
        };
        if advances {
            self.tip = Some(block_hash);
            self.current_height = Some(height);
        }
        // Block record, event, undo journal; install the new chain state.
        let info_for_event = info.duplicate();
        self.put_block_info(block_hash, info);
        core::mem::swap(&mut self.chain, &mut work_chain);
        self.undo.push(
            (
                block_hash,
                UndoRecord {
                    chain: work_chain,
                    bmm_by_height: undo_bmm,
                    tip: undo_tip,
                    current_height: undo_height,
                    header_written,
                    prev_block_info,
                },
            ),
        );
        self.events.push(
            Event::ConnectBlock { header_info: stored_header, block_info: info_for_event },
        );
        proof {
            let expected = connect_spec(v0, block@, height)->Ok_0;
            assert(stored_header == (if !has_key(v0.headers, block_hash) {
                new_header_spec
            } else {
                lookup(v0.headers, block_hash)->Some_0
            }));
            assert(self@.undo =~~= expected.undo);
            assert(self@.events =~~= expected.events);
            assert(self@.block_infos =~~= expected.block_infos);
            assert(self@ =~~= expected);
        }
        Ok(())
    }

    /// Disconnects the most recently connected block, restoring every
    /// durable table to its pre-connect state and logging a disconnect
    /// event.
    pub fn disconnect_block(&mut self, block_hash: Hash256) -> (r: Result<
        (),
        DisconnectBlockError,
    >)
        ensures
            match disconnect_spec(old(self)@, block_hash) {
                Ok(v2) => r is Ok && final(self)@ == v2,
                Err(e) => r is Err && r->Err_0 == e && final(self)@ == old(self)@,
            },
    {
        let ghost v0 = self@;
        if self.undo.len() == 0 {
            return Err(DisconnectBlockError::NotTip { block_hash });
        }
        if !(self.undo[self.undo.len() - 1].0 == block_hash) {
            proof {
                assert(v0.undo.last().0 != block_hash);
            }
            return Err(DisconnectBlockError::NotTip { block_hash });
        }
        proof {
            assert(v0.undo.last().0 == block_hash);
        }
        let (_, rec) = match self.undo.pop() {
            Some(entry) => entry,
            None => {
                proof {
                    assert(false);
                }
                vstd::pervasive::unreached()
            },
        };
        proof {
            assert(self@.undo =~~= v0.undo.drop_last());
            assert(rec@ == v0.undo.last().1);
        }
        self.chain = rec.chain;
        self.bmm_by_height = rec.bmm_by_height;
        self.tip = rec.tip;
        self.current_height = rec.current_height;
        match rec.prev_block_info {
            Some(bi) => {
                self.put_block_info(block_hash, bi);
            },
            None => {
                self.remove_block_info(&block_hash);
            },
        }
        if rec.header_written {
            self.remove_header(&block_hash);
        }
        self.events.push(Event::DisconnectBlock { block_hash });
        proof {
            let expected = disconnect_spec(v0, block_hash)->Ok_0;
            assert(self@.events =~~= expected.events);
            assert(self@ =~~= expected);
        }
        Ok(())
    }
}

} // verus!
