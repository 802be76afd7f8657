//! Data model: hashes, outpoints, transactions, sidechain records, events.

use vstd::prelude::*;

verus! {

/// 32-byte identifier (block hash, description hash, txid, m6id), stored as
/// four 64-bit words, little-endian: `w0` holds bytes 0..8, `w3` bytes 24..32.
#[derive(Clone, Copy, Debug, PartialEq, Eq, Structural)]
pub struct Hash256 {
    pub w0: u64,
    pub w1: u64,
    pub w2: u64,
    pub w3: u64,
}

/// 256-bit cumulative-work accumulator, little-endian 64-bit limbs.
#[derive(Clone, Copy, Debug, PartialEq, Eq, Structural)]
pub struct Work {
    pub w0: u64,
    pub w1: u64,
    pub w2: u64,
    pub w3: u64,
}

impl Work {
    /// The number this accumulator denotes.
    pub open spec fn value(&self) -> int {
        self.w0 + self.w1 * 0x1_0000_0000_0000_0000
            + self.w2 * 0x1_0000_0000_0000_0000 * 0x1_0000_0000_0000_0000
            + self.w3 * 0x1_0000_0000_0000_0000 * 0x1_0000_0000_0000_0000
                * 0x1_0000_0000_0000_0000
    }

    pub fn zero() -> (r: Work)
        ensures
            r.value() == 0,
    {
        Work { w0: 0, w1: 0, w2: 0, w3: 0 }
    }

    /// The largest value the accumulator can hold.
    pub open spec fn max_value() -> int {
        0x1_0000_0000_0000_0000 * 0x1_0000_0000_0000_0000 * 0x1_0000_0000_0000_0000
            * 0x1_0000_0000_0000_0000 - 1
    }

    /// The sum of two accumulators, held at the ceiling.
    pub fn add(self, other: Work) -> (r: Work)
        ensures
            r == work_add_spec(self, other),
            r.value() == if self.value() + other.value() <= Work::max_value() {
                self.value() + other.value()
            } else {
                Work::max_value()
            },
    {
        let base: u128 = 0x1_0000_0000_0000_0000;
        let s0: u128 = self.w0 as u128 + other.w0 as u128;
        let r0: u64 = (s0 % base) as u64;
        let c0: u128 = s0 / base;
        let s1: u128 = self.w1 as u128 + other.w1 as u128 + c0;
        let r1: u64 = (s1 % base) as u64;
        let c1: u128 = s1 / base;
        let s2: u128 = self.w2 as u128 + other.w2 as u128 + c1;
        let r2: u64 = (s2 % base) as u64;
        let c2: u128 = s2 / base;
        let s3: u128 = self.w3 as u128 + other.w3 as u128 + c2;
        let r3: u64 = (s3 % base) as u64;
        let c3: u128 = s3 / base;
        let r = Work { w0: r0, w1: r1, w2: r2, w3: r3 };
        proof {
            let b: int = 0x1_0000_0000_0000_0000;
            assert(s0 == b * c0 + r0);
            assert(s1 == b * c1 + r1);
            assert(s2 == b * c2 + r2);
            assert(s3 == b * c3 + r3);
            assert(c0 <= 1 && c1 <= 1 && c2 <= 1 && c3 <= 1);
            assert(self.value() + other.value() == r.value() + c3 * b * b * b * b)
                by (nonlinear_arith)
                requires
                    s0 == self.w0 + other.w0,
                    s1 == self.w1 + other.w1 + c0,
                    s2 == self.w2 + other.w2 + c1,
                    s3 == self.w3 + other.w3 + c2,
                    s0 == b * c0 + r0,
                    s1 == b * c1 + r1,
                    s2 == b * c2 + r2,
                    s3 == b * c3 + r3,
                    b == 0x1_0000_0000_0000_0000,
                    self.value() == self.w0 + self.w1 * b + self.w2 * b * b + self.w3 * b * b
                        * b,
                    other.value() == other.w0 + other.w1 * b + other.w2 * b * b + other.w3 * b
                        * b * b,
                    r.value() == r0 + r1 * b + r2 * b * b + r3 * b * b * b,
            ;
            assert(r.value() <= Work::max_value());
        }
        if c3 > 0 {
            let m = Work {
                w0: 0xFFFF_FFFF_FFFF_FFFF,
                w1: 0xFFFF_FFFF_FFFF_FFFF,
                w2: 0xFFFF_FFFF_FFFF_FFFF,
                w3: 0xFFFF_FFFF_FFFF_FFFF,
            };
            proof {
                assert(m.value() == Work::max_value());
            }
            m
        } else {
            r
        }
    }

    /// Whether this accumulator denotes less than `other`.
    pub fn lt(self, other: Work) -> (r: bool)
        ensures
            r == (self.value() < other.value()),
    {
        proof {
            let b: int = 0x1_0000_0000_0000_0000;
            assert(self.w0 + self.w1 * b + self.w2 * b * b < b * b * b);
            assert(other.w0 + other.w1 * b + other.w2 * b * b < b * b * b);
            assert(self.w0 + self.w1 * b < b * b);
            assert(other.w0 + other.w1 * b < b * b);
        }
        if self.w3 != other.w3 {
            self.w3 < other.w3
        } else if self.w2 != other.w2 {
            self.w2 < other.w2
        } else if self.w1 != other.w1 {
            self.w1 < other.w1
        } else {
            self.w0 < other.w0
        }
    }
}

/// The sum of two accumulators, limb by limb with carries, held at the
/// ceiling.
pub open spec fn work_add_spec(a: Work, b: Work) -> Work {
    let base: int = 0x1_0000_0000_0000_0000;
    let s0: int = a.w0 + b.w0;
    let c0: int = s0 / base;
    let s1: int = a.w1 + b.w1 + c0;
    let c1: int = s1 / base;
    let s2: int = a.w2 + b.w2 + c1;
    let c2: int = s2 / base;
    let s3: int = a.w3 + b.w3 + c2;
    let c3: int = s3 / base;
    if c3 > 0 {
        Work {
            w0: 0xFFFF_FFFF_FFFF_FFFF,
            w1: 0xFFFF_FFFF_FFFF_FFFF,
            w2: 0xFFFF_FFFF_FFFF_FFFF,
            w3: 0xFFFF_FFFF_FFFF_FFFF,
        }
    } else {
        Work {
            w0: (s0 % base) as u64,
            w1: (s1 % base) as u64,
            w2: (s2 % base) as u64,
            w3: (s3 % base) as u64,
        }
    }
}

/// Reference to an output of an earlier transaction.
#[derive(Clone, Copy, Debug, PartialEq, Eq, Structural)]
pub struct OutPoint {
    pub txid: Hash256,
    pub vout: u32,
}

/// A transaction output: value in satoshis and the locking script.
#[derive(Clone, Debug)]
pub struct TxOut {
    pub value: u64,
    pub script_pubkey: Vec<u8>,
}

pub ghost struct TxOutV {
    pub value: u64,
    pub script_pubkey: Seq<u8>,
}

impl View for TxOut {
    type V = TxOutV;

    open spec fn view(&self) -> TxOutV {
        TxOutV { value: self.value, script_pubkey: self.script_pubkey@ }
    }
}

/// A mainchain transaction, as the state machine reads it: its id, its
/// consensus serialization (used to derive withdrawal-bundle ids), and the
/// plain fields of its inputs and outputs. The caller derives `txid` and
/// `raw` from the same encoded transaction it took the fields from.
#[derive(Clone, Debug)]
pub struct Transaction {
    pub txid: Hash256,
    pub raw: Vec<u8>,
    pub inputs: Vec<OutPoint>,
    pub outputs: Vec<TxOut>,
}

pub ghost struct TransactionV {
    pub txid: Hash256,
    pub raw: Seq<u8>,
    pub inputs: Seq<OutPoint>,
    pub outputs: Seq<TxOutV>,
}

impl View for Transaction {
    type V = TransactionV;

    open spec fn view(&self) -> TransactionV {
        TransactionV {
            txid: self.txid,
            raw: self.raw@,
            inputs: self.inputs@,
            outputs: self.outputs@.map_values(|o: TxOut| o@),
        }
    }
}

/// A mainchain block header, reduced to what the enforcer reads: the block's
/// own hash, its parent, and the block's proof-of-work quantity.
#[derive(Clone, Copy, Debug, PartialEq, Eq, Structural)]
pub struct Header {
    pub block_hash: Hash256,
    pub prev_block_hash: Hash256,
    pub work: Work,
}

/// A mainchain block: header plus transactions, coinbase first.
#[derive(Clone, Debug)]
pub struct Block {
    pub header: Header,
    pub txdata: Vec<Transaction>,
}

pub ghost struct BlockV {
    pub header: Header,
    pub txdata: Seq<TransactionV>,
}

impl View for Block {
    type V = BlockV;

    open spec fn view(&self) -> BlockV {
        BlockV { header: self.header, txdata: self.txdata@.map_values(|t: Transaction| t@) }
    }
}

/// A sidechain slot proposal, kept under the double-SHA256 of its `data`.
#[derive(Clone, Debug)]
pub struct SidechainProposal {
    pub sidechain_number: u8,
    pub data: Vec<u8>,
    pub vote_count: u16,
    pub proposal_height: u32,
}

pub ghost struct SidechainProposalV {
    pub sidechain_number: u8,
    pub data: Seq<u8>,
    pub vote_count: u16,
    pub proposal_height: u32,
}

impl View for SidechainProposal {
    type V = SidechainProposalV;

    open spec fn view(&self) -> SidechainProposalV {
        SidechainProposalV {
            sidechain_number: self.sidechain_number,
            data: self.data@,
            vote_count: self.vote_count,
            proposal_height: self.proposal_height,
        }
    }
}

/// An activated sidechain occupying a slot.
#[derive(Clone, Debug)]
pub struct Sidechain {
    pub sidechain_number: u8,
    pub data: Vec<u8>,
    pub vote_count: u16,
    pub proposal_height: u32,
    pub activation_height: u32,
}

pub ghost struct SidechainV {
    pub sidechain_number: u8,
    pub data: Seq<u8>,
    pub vote_count: u16,
    pub proposal_height: u32,
    pub activation_height: u32,
}

impl View for Sidechain {
    type V = SidechainV;

    open spec fn view(&self) -> SidechainV {
        SidechainV {
            sidechain_number: self.sidechain_number,
            data: self.data@,
            vote_count: self.vote_count,
            proposal_height: self.proposal_height,
            activation_height: self.activation_height,
        }
    }
}

/// A proposed withdrawal bundle for a slot, with its running vote count.
#[derive(Clone, Copy, Debug, PartialEq, Eq, Structural)]
pub struct PendingM6id {
    pub m6id: Hash256,
    pub vote_count: u16,
}

/// The single UTXO currently holding a sidechain's treasury balance.
#[derive(Clone, Copy, Debug, PartialEq, Eq, Structural)]
pub struct Ctip {
    pub outpoint: OutPoint,
    pub value: u64,
}

/// Immutable record of one treasury transition, kept at `(slot, sequence)`.
#[derive(Clone, Debug)]
pub struct TreasuryUtxo {
    pub outpoint: OutPoint,
    pub address: Option<Vec<u8>>,
    pub total_value: u64,
    pub previous_total_value: u64,
}

pub ghost struct TreasuryUtxoV {
    pub outpoint: OutPoint,
    pub address: Option<Seq<u8>>,
    pub total_value: u64,
    pub previous_total_value: u64,
}

impl View for TreasuryUtxo {
    type V = TreasuryUtxoV;

    open spec fn view(&self) -> TreasuryUtxoV {
        TreasuryUtxoV {
            outpoint: self.outpoint,
            address: match self.address {
                Some(ref a) => Some(a@),
                None => None,
            },
            total_value: self.total_value,
            previous_total_value: self.previous_total_value,
        }
    }
}

/// A deposit into a sidechain, derived from a treasury transaction that
/// raised the total value and named a recipient script.
#[derive(Clone, Debug)]
pub struct Deposit {
    pub sidechain_id: u8,
    pub sequence_number: u64,
    pub outpoint: OutPoint,
    pub output: TxOut,
}

pub ghost struct DepositV {
    pub sidechain_id: u8,
    pub sequence_number: u64,
    pub outpoint: OutPoint,
    pub output: TxOutV,
}

impl View for Deposit {
    type V = DepositV;

    open spec fn view(&self) -> DepositV {
        DepositV {
            sidechain_id: self.sidechain_id,
            sequence_number: self.sequence_number,
            outpoint: self.outpoint,
            output: self.output@,
        }
    }
}

impl SidechainProposal {
    /// A fresh record with the same content.
    pub fn duplicate(&self) -> (r: SidechainProposal)
        ensures
            r@ == self@,
    {
        SidechainProposal {
            sidechain_number: self.sidechain_number,
            data: crate::bytes::dup_bytes(&self.data),
            vote_count: self.vote_count,
            proposal_height: self.proposal_height,
        }
    }
}

impl Sidechain {
    /// A fresh record with the same content.
    pub fn duplicate(&self) -> (r: Sidechain)
        ensures
            r@ == self@,
    {
        Sidechain {
            sidechain_number: self.sidechain_number,
            data: crate::bytes::dup_bytes(&self.data),
            vote_count: self.vote_count,
            proposal_height: self.proposal_height,
            activation_height: self.activation_height,
        }
    }
}

impl TreasuryUtxo {
    /// A fresh record with the same content.
    pub fn duplicate(&self) -> (r: TreasuryUtxo)
        ensures
            r@ == self@,
    {
        TreasuryUtxo {
            outpoint: self.outpoint,
            address: match &self.address {
                Some(a) => Some(crate::bytes::dup_bytes(a)),
                None => None,
            },
            total_value: self.total_value,
            previous_total_value: self.previous_total_value,
        }
    }
}

impl TxOut {
    /// A fresh record with the same content.
    pub fn duplicate(&self) -> (r: TxOut)
        ensures
            r@ == self@,
    {
        TxOut { value: self.value, script_pubkey: crate::bytes::dup_bytes(&self.script_pubkey) }
    }
}

impl Deposit {
    /// A fresh record with the same content.
    pub fn duplicate(&self) -> (r: Deposit)
        ensures
            r@ == self@,
    {
        Deposit {
            sidechain_id: self.sidechain_id,
            sequence_number: self.sequence_number,
            outpoint: self.outpoint,
            output: self.output.duplicate(),
        }
    }
}

/// Header data kept per known block.
#[derive(Clone, Copy, Debug, PartialEq, Eq, Structural)]
pub struct HeaderInfo {
    pub block_hash: Hash256,
    pub prev_block_hash: Hash256,
    pub height: u32,
    /// Cumulative work of the chain ending at this block.
    pub work: Work,
}

/// What happened to a withdrawal bundle.
#[derive(Clone, Copy, Debug, PartialEq, Eq, Structural)]
pub enum WithdrawalBundleEventKind {
    Submitted,
    Failed,
    Succeeded,
}

/// A withdrawal-bundle event for a slot.
#[derive(Clone, Copy, Debug, PartialEq, Eq, Structural)]
pub struct WithdrawalBundleEvent {
    pub sidechain_id: u8,
    pub m6id: Hash256,
    pub kind: WithdrawalBundleEventKind,
}

/// Per-block BMM commitments: slot to committed sidechain block hash, in
/// insertion order, each slot at most once.
#[derive(Clone, Debug)]
pub struct BmmCommitments {
    pub entries: Vec<(u8, Hash256)>,
}

/// What a connected block did, kept under the block's hash.
#[derive(Clone, Debug)]
pub struct BlockInfo {
    pub coinbase_txid: Hash256,
    pub deposits: Vec<Deposit>,
    pub withdrawal_bundle_events: Vec<WithdrawalBundleEvent>,
    pub sidechain_proposals: Vec<(u32, SidechainProposal)>,
    pub bmm_commitments: Vec<(u8, Hash256)>,
}

pub ghost struct BlockInfoV {
    pub coinbase_txid: Hash256,
    pub deposits: Seq<DepositV>,
    pub withdrawal_bundle_events: Seq<WithdrawalBundleEvent>,
    pub sidechain_proposals: Seq<(u32, SidechainProposalV)>,
    pub bmm_commitments: Seq<(u8, Hash256)>,
}

impl View for BlockInfo {
    type V = BlockInfoV;

    open spec fn view(&self) -> BlockInfoV {
        BlockInfoV {
            coinbase_txid: self.coinbase_txid,
            deposits: self.deposits@.map_values(|d: Deposit| d@),
            withdrawal_bundle_events: self.withdrawal_bundle_events@,
            sidechain_proposals: self.sidechain_proposals@.map_values(
                |p: (u32, SidechainProposal)| (p.0, p.1@),
            ),
            bmm_commitments: self.bmm_commitments@,
        }
    }
}

impl BlockInfo {
    /// A fresh record with the same content.
    pub fn duplicate(&self) -> (r: BlockInfo)
        ensures
            r@ == self@,
    {
        let mut deposits: Vec<Deposit> = Vec::new();
        let mut i: usize = 0;
        while i < self.deposits.len()
            invariant
                i <= self.deposits@.len(),
                deposits@.len() == i,
                forall|j: int| 0 <= j < i ==> (#[trigger] deposits@[j])@ == self.deposits@[j]@,
            decreases self.deposits@.len() - i,
        {
            deposits.push(self.deposits[i].duplicate());
            i += 1;
        }
        let mut withdrawal_bundle_events: Vec<WithdrawalBundleEvent> = Vec::new();
        let mut i: usize = 0;
        while i < self.withdrawal_bundle_events.len()
            invariant
                i <= self.withdrawal_bundle_events@.len(),
                withdrawal_bundle_events@ == self.withdrawal_bundle_events@.subrange(
                    0,
                    i as int,
                ),
            decreases self.withdrawal_bundle_events@.len() - i,
        {
            withdrawal_bundle_events.push(self.withdrawal_bundle_events[i]);
            proof {
                assert(withdrawal_bundle_events@ =~= self.withdrawal_bundle_events@.subrange(
                    0,
                    i + 1,
                ));
            }
            i += 1;
        }
        let mut sidechain_proposals: Vec<(u32, SidechainProposal)> = Vec::new();
        let mut i: usize = 0;
        while i < self.sidechain_proposals.len()
            invariant
                i <= self.sidechain_proposals@.len(),
                sidechain_proposals@.len() == i,
                forall|j: int| 0 <= j < i ==> (#[trigger] sidechain_proposals@[j]).0
                    == self.sidechain_proposals@[j].0 && sidechain_proposals@[j].1@
                    == self.sidechain_proposals@[j].1@,
            decreases self.sidechain_proposals@.len() - i,
        {
            let pair = &self.sidechain_proposals[i];
            sidechain_proposals.push((pair.0, pair.1.duplicate()));
            i += 1;
        }
        let mut bmm_commitments: Vec<(u8, Hash256)> = Vec::new();
        let mut i: usize = 0;
        while i < self.bmm_commitments.len()
            invariant
                i <= self.bmm_commitments@.len(),
                bmm_commitments@ == self.bmm_commitments@.subrange(0, i as int),
            decreases self.bmm_commitments@.len() - i,
        {
            bmm_commitments.push(self.bmm_commitments[i]);
            proof {
                assert(bmm_commitments@ =~= self.bmm_commitments@.subrange(0, i + 1));
            }
            i += 1;
        }
        let r = BlockInfo {
            coinbase_txid: self.coinbase_txid,
            deposits,
            withdrawal_bundle_events,
            sidechain_proposals,
            bmm_commitments,
        };
        proof {
            assert(r.withdrawal_bundle_events@ =~= self.withdrawal_bundle_events@);
            assert(r.bmm_commitments@ =~= self.bmm_commitments@);
            assert(r@.deposits =~= self@.deposits);
            assert(r@.sidechain_proposals =~= self@.sidechain_proposals);
            assert(r@ =~= self@);
        }
        r
    }
}

/// What the enforcer announces to subscribers.
#[derive(Clone, Debug)]
pub enum Event {
    ConnectBlock { header_info: HeaderInfo, block_info: BlockInfo },
    DisconnectBlock { block_hash: Hash256 },
}

pub ghost enum EventV {
    ConnectBlock { header_info: HeaderInfo, block_info: BlockInfoV },
    DisconnectBlock { block_hash: Hash256 },
}

impl View for Event {
    type V = EventV;

    open spec fn view(&self) -> EventV {
        match self {
            Event::ConnectBlock { header_info, block_info } => EventV::ConnectBlock {
                header_info: *header_info,
                block_info: block_info@,
            },
            Event::DisconnectBlock { block_hash } => EventV::DisconnectBlock {
                block_hash: *block_hash,
            },
        }
    }
}

/// One block's slice of two-way-peg history: its header and what it did.
pub struct TwoWayPegData {
    pub header_info: HeaderInfo,
    pub block_info: BlockInfo,
}

pub ghost struct TwoWayPegDataV {
    pub header_info: HeaderInfo,
    pub block_info: BlockInfoV,
}

impl View for TwoWayPegData {
    type V = TwoWayPegDataV;

    open spec fn view(&self) -> TwoWayPegDataV {
        TwoWayPegDataV { header_info: self.header_info, block_info: self.block_info@ }
    }
}

/// Key of the single-cell tables. Stores that refuse zero-length keys hold
/// it as one fixed byte.
#[derive(Clone, Copy, Debug, PartialEq, Eq, Structural)]
pub struct UnitKey;

impl UnitKey {
    /// The byte the unit key is encoded as on disk.
    pub fn encoded_byte(&self) -> (r: u8)
        ensures
            r == 0x69u8,
    {
        0x69
    }
}

/// A BMM request parsed from the first output script of a transaction.
#[derive(Clone, Copy, Debug, PartialEq, Eq, Structural)]
pub struct M8BmmRequest {
    pub sidechain_number: u8,
    pub sidechain_block_hash: Hash256,
    pub prev_mainchain_block_hash: Hash256,
}

/// A coinbase message, decoded from a coinbase output script.
#[derive(Clone, Debug)]
pub enum CoinbaseMessage {
    M1ProposeSidechain { sidechain_number: u8, data: Vec<u8> },
    M2AckSidechain { sidechain_number: u8, data_hash: Hash256 },
    M3ProposeBundle { sidechain_number: u8, bundle_txid: Hash256 },
    M4AckBundles(M4AckBundles),
    M7BmmAccept { sidechain_number: u8, sidechain_block_hash: Hash256 },
}

/// The four forms of an M4 (ack bundles) message.
#[derive(Clone, Debug)]
pub enum M4AckBundles {
    RepeatPrevious,
    LeadingBy50,
    OneByte { upvotes: Vec<u8> },
    TwoBytes { upvotes: Vec<u16> },
}

pub ghost enum CoinbaseMessageV {
    M1ProposeSidechain { sidechain_number: u8, data: Seq<u8> },
    M2AckSidechain { sidechain_number: u8, data_hash: Hash256 },
    M3ProposeBundle { sidechain_number: u8, bundle_txid: Hash256 },
    M4AckBundles(M4AckBundlesV),
    M7BmmAccept { sidechain_number: u8, sidechain_block_hash: Hash256 },
}

pub ghost enum M4AckBundlesV {
    RepeatPrevious,
    LeadingBy50,
    OneByte { upvotes: Seq<u8> },
    TwoBytes { upvotes: Seq<u16> },
}

impl View for M4AckBundles {
    type V = M4AckBundlesV;

    open spec fn view(&self) -> M4AckBundlesV {
        match self {
            M4AckBundles::RepeatPrevious => M4AckBundlesV::RepeatPrevious,
            M4AckBundles::LeadingBy50 => M4AckBundlesV::LeadingBy50,
            M4AckBundles::OneByte { upvotes } => M4AckBundlesV::OneByte { upvotes: upvotes@ },
            M4AckBundles::TwoBytes { upvotes } => M4AckBundlesV::TwoBytes { upvotes: upvotes@ },
        }
    }
}

impl View for CoinbaseMessage {
    type V = CoinbaseMessageV;

    open spec fn view(&self) -> CoinbaseMessageV {
        match self {
            CoinbaseMessage::M1ProposeSidechain { sidechain_number, data } => {
                CoinbaseMessageV::M1ProposeSidechain {
                    sidechain_number: *sidechain_number,
                    data: data@,
                }
            },
            CoinbaseMessage::M2AckSidechain { sidechain_number, data_hash } => {
                CoinbaseMessageV::M2AckSidechain {
                    sidechain_number: *sidechain_number,
                    data_hash: *data_hash,
                }
            },
            CoinbaseMessage::M3ProposeBundle { sidechain_number, bundle_txid } => {
                CoinbaseMessageV::M3ProposeBundle {
                    sidechain_number: *sidechain_number,
                    bundle_txid: *bundle_txid,
                }
            },
            CoinbaseMessage::M4AckBundles(m4) => CoinbaseMessageV::M4AckBundles(m4@),
            CoinbaseMessage::M7BmmAccept { sidechain_number, sidechain_block_hash } => {
                CoinbaseMessageV::M7BmmAccept {
                    sidechain_number: *sidechain_number,
                    sidechain_block_hash: *sidechain_block_hash,
                }
            },
        }
    }
}

} // verus!
