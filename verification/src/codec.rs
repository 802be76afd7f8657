//! The coinbase-message codec: each message is an OP_RETURN script holding
//! a four-byte tag and the message's fields; treasury outputs carry the
//! OP_DRIVECHAIN form. Scripts that fit no form are simply not messages.
//!
//! Layout, byte by byte (`6a` is OP_RETURN):
//! - propose sidechain:   `6a d5 e0 c4 af` slot, description bytes
//! - ack sidechain:       `6a d6 e1 c5 df` slot, 32-byte description hash
//! - propose bundle:      `6a d4 5a a9 43` slot, 32-byte bundle id
//! - ack bundles:         `6a d7 7d 17 76` form byte, upvote bytes
//! - BMM accept:          `6a d1 61 73 68` slot, 32-byte sidechain block hash
//! - BMM request:         `6a d0 52 0c 6e` slot, 32-byte sidechain block
//!                        hash, 32-byte previous mainchain block hash
//! - treasury (deposit):  `b4 01` slot `51` (OP_DRIVECHAIN, a push of the
//!                        slot number, and a truthy terminator)
//!
//! The ack-bundles form byte is `00` for repeat-previous, `01` for
//! leading-by-50, `02` for one-byte upvotes, `03` for two-byte (little-
//! endian) upvotes.

use vstd::prelude::*;

use crate::bytes::{copy_range, hash_bytes, hash_from_bytes, push_hash, read_hash};
use crate::types::{
    CoinbaseMessage, CoinbaseMessageV, Hash256, M4AckBundles, M4AckBundlesV, M8BmmRequest,
};

verus! {

/// The vote in a two-byte ack-bundles list that stands for abstaining.
pub const ABSTAIN_TWO_BYTES: u16 = 0xFFFF;

/// The vote in a two-byte ack-bundles list that alarms (downvotes all).
pub const ALARM_TWO_BYTES: u16 = 0xFFFE;

/// The 16-bit little-endian values a byte sequence holds, pair by pair.
pub open spec fn le16_vals(s: Seq<u8>) -> Seq<u16>
    decreases s.len(),
{
    if s.len() < 2 {
        Seq::empty()
    } else {
        seq![(s[0] + s[1] * 0x100) as u16] + le16_vals(s.skip(2))
    }
}

/// The byte form of 16-bit values, little-endian, pair by pair.
pub open spec fn le16_bytes(u: Seq<u16>) -> Seq<u8>
    decreases u.len(),
{
    if u.len() == 0 {
        Seq::empty()
    } else {
        seq![(u[0] % 0x100) as u8, (u[0] / 0x100) as u8] + le16_bytes(u.skip(1))
    }
}

pub proof fn lemma_le16_vals_index(s: Seq<u8>)
    ensures
        le16_vals(s).len() == s.len() / 2,
        forall|i: int|
            0 <= i < s.len() / 2 ==> le16_vals(s)[i] == (s[2 * i] + s[2 * i + 1] * 0x100) as u16,
    decreases s.len(),
{
    if s.len() < 2 {
    } else {
        lemma_le16_vals_index(s.skip(2));
        assert forall|i: int| 0 <= i < s.len() / 2 implies le16_vals(s)[i] == (s[2 * i] + s[2 * i
            + 1] * 0x100) as u16 by {
            if i > 0 {
                assert(le16_vals(s.skip(2))[i - 1] == (s.skip(2)[2 * (i - 1)] + s.skip(2)[2 * (i
                    - 1) + 1] * 0x100) as u16);
                assert(s.skip(2)[2 * (i - 1)] == s[2 * i]);
                assert(s.skip(2)[2 * (i - 1) + 1] == s[2 * i + 1]);
            }
        }
    }
}

/// Reading back the bytes of two-byte values yields the values.
pub proof fn lemma_le16_roundtrip(u: Seq<u16>)
    ensures
        le16_vals(le16_bytes(u)) == u,
        le16_bytes(u).len() == 2 * u.len(),
    decreases u.len(),
{
    if u.len() == 0 {
        assert(le16_vals(le16_bytes(u)) =~= u);
    } else {
        lemma_le16_roundtrip(u.skip(1));
        let s = le16_bytes(u);
        assert(s.skip(2) =~= le16_bytes(u.skip(1)));
        assert(s[0] + s[1] * 0x100 == u[0] % 0x100 + (u[0] / 0x100) * 0x100);
        assert(le16_vals(s) =~= u);
    }
}

/// What a coinbase output script says, if anything.
pub open spec fn parse_coinbase_message_spec(s: Seq<u8>) -> Option<CoinbaseMessageV> {
    if s.len() < 5 || s[0] != 0x6a {
        None
    } else {
        let body = s.skip(5);
        if s[1] == 0xd5 && s[2] == 0xe0 && s[3] == 0xc4 && s[4] == 0xaf {
            if body.len() >= 1 {
                Some(CoinbaseMessageV::M1ProposeSidechain {
                    sidechain_number: body[0],
                    data: body.skip(1),
                })
            } else {
                None
            }
        } else if s[1] == 0xd6 && s[2] == 0xe1 && s[3] == 0xc5 && s[4] == 0xdf {
            if body.len() == 33 {
                Some(CoinbaseMessageV::M2AckSidechain {
                    sidechain_number: body[0],
                    data_hash: hash_from_bytes(body.skip(1)),
                })
            } else {
                None
            }
        } else if s[1] == 0xd4 && s[2] == 0x5a && s[3] == 0xa9 && s[4] == 0x43 {
            if body.len() == 33 {
                Some(CoinbaseMessageV::M3ProposeBundle {
                    sidechain_number: body[0],
                    bundle_txid: hash_from_bytes(body.skip(1)),
                })
            } else {
                None
            }
        } else if s[1] == 0xd7 && s[2] == 0x7d && s[3] == 0x17 && s[4] == 0x76 {
            match parse_m4_body_spec(body) {
                Some(m4) => Some(CoinbaseMessageV::M4AckBundles(m4)),
                None => None,
            }
        } else if s[1] == 0xd1 && s[2] == 0x61 && s[3] == 0x73 && s[4] == 0x68 {
            if body.len() == 33 {
                Some(CoinbaseMessageV::M7BmmAccept {
                    sidechain_number: body[0],
                    sidechain_block_hash: hash_from_bytes(body.skip(1)),
                })
            } else {
                None
            }
        } else {
            None
        }
    }
}

/// What the body of an ack-bundles message says, if anything.
pub open spec fn parse_m4_body_spec(body: Seq<u8>) -> Option<M4AckBundlesV> {
    if body.len() < 1 {
        None
    } else if body[0] == 0x00 {
        if body.len() == 1 {
            Some(M4AckBundlesV::RepeatPrevious)
        } else {
            None
        }
    } else if body[0] == 0x01 {
        if body.len() == 1 {
            Some(M4AckBundlesV::LeadingBy50)
        } else {
            None
        }
    } else if body[0] == 0x02 {
        Some(M4AckBundlesV::OneByte { upvotes: body.skip(1) })
    } else if body[0] == 0x03 {
        if (body.len() - 1) % 2 == 0 {
            Some(M4AckBundlesV::TwoBytes { upvotes: le16_vals(body.skip(1)) })
        } else {
            None
        }
    } else {
        None
    }
}

/// The script a coinbase message is written as.
pub open spec fn encode_coinbase_message_spec(m: CoinbaseMessageV) -> Seq<u8> {
    match m {
        CoinbaseMessageV::M1ProposeSidechain { sidechain_number, data } => {
            seq![0x6au8, 0xd5u8, 0xe0u8, 0xc4u8, 0xafu8, sidechain_number] + data
        },
        CoinbaseMessageV::M2AckSidechain { sidechain_number, data_hash } => {
            seq![0x6au8, 0xd6u8, 0xe1u8, 0xc5u8, 0xdfu8, sidechain_number] + hash_bytes(data_hash)
        },
        CoinbaseMessageV::M3ProposeBundle { sidechain_number, bundle_txid } => {
            seq![0x6au8, 0xd4u8, 0x5au8, 0xa9u8, 0x43u8, sidechain_number] + hash_bytes(
                bundle_txid,
            )
        },
        CoinbaseMessageV::M4AckBundles(m4) => {
            seq![0x6au8, 0xd7u8, 0x7du8, 0x17u8, 0x76u8] + encode_m4_body_spec(m4)
        },
        CoinbaseMessageV::M7BmmAccept { sidechain_number, sidechain_block_hash } => {
            seq![0x6au8, 0xd1u8, 0x61u8, 0x73u8, 0x68u8, sidechain_number] + hash_bytes(
                sidechain_block_hash,
            )
        },
    }
}

/// The body an ack-bundles message is written as.
pub open spec fn encode_m4_body_spec(m4: M4AckBundlesV) -> Seq<u8> {
    match m4 {
        M4AckBundlesV::RepeatPrevious => seq![0x00u8],
        M4AckBundlesV::LeadingBy50 => seq![0x01u8],
        M4AckBundlesV::OneByte { upvotes } => seq![0x02u8] + upvotes,
        M4AckBundlesV::TwoBytes { upvotes } => seq![0x03u8] + le16_bytes(upvotes),
    }
}

/// Parsing an encoded message yields the message: the codec loses nothing.
pub proof fn lemma_coinbase_message_roundtrip(m: CoinbaseMessageV)
    ensures
        parse_coinbase_message_spec(encode_coinbase_message_spec(m)) == Some(m),
{
    match m {
        CoinbaseMessageV::M1ProposeSidechain { sidechain_number, data } => {
            lemma_roundtrip_m1(sidechain_number, data);
        },
        CoinbaseMessageV::M2AckSidechain { sidechain_number, data_hash } => {
            lemma_roundtrip_tagged_hash(m, 0xd6, 0xe1, 0xc5, 0xdf, sidechain_number, data_hash);
        },
        CoinbaseMessageV::M3ProposeBundle { sidechain_number, bundle_txid } => {
            lemma_roundtrip_tagged_hash(m, 0xd4, 0x5a, 0xa9, 0x43, sidechain_number, bundle_txid);
        },
        CoinbaseMessageV::M4AckBundles(m4) => {
            lemma_roundtrip_m4(m4);
        },
        CoinbaseMessageV::M7BmmAccept { sidechain_number, sidechain_block_hash } => {
            lemma_roundtrip_tagged_hash(
                m,
                0xd1,
                0x61,
                0x73,
                0x68,
                sidechain_number,
                sidechain_block_hash,
            );
        },
    }
}

proof fn lemma_roundtrip_m1(sidechain_number: u8, data: Seq<u8>)
    ensures
        parse_coinbase_message_spec(
            encode_coinbase_message_spec(
                CoinbaseMessageV::M1ProposeSidechain { sidechain_number, data },
            ),
        ) == Some(CoinbaseMessageV::M1ProposeSidechain { sidechain_number, data }),
{
    let s = encode_coinbase_message_spec(
        CoinbaseMessageV::M1ProposeSidechain { sidechain_number, data },
    );
    assert(s.len() >= 6 && s[0] == 0x6a && s[1] == 0xd5 && s[2] == 0xe0 && s[3] == 0xc4 && s[4]
        == 0xaf);
    assert(s.skip(5) =~= seq![sidechain_number] + data);
    assert(s.skip(5)[0] == sidechain_number);
    assert(s.skip(5).skip(1) =~= data);
}

/// One roundtrip proof for the three message forms that carry a slot and a
/// single 32-byte identifier behind their tag.
#[verifier::rlimit(50)]
proof fn lemma_roundtrip_tagged_hash(
    m: CoinbaseMessageV,
    t1: u8,
    t2: u8,
    t3: u8,
    t4: u8,
    sidechain_number: u8,
    h: Hash256,
)
    requires
        encode_coinbase_message_spec(m) == seq![0x6au8, t1, t2, t3, t4, sidechain_number]
            + hash_bytes(h),
        (t1 == 0xd6 && t2 == 0xe1 && t3 == 0xc5 && t4 == 0xdf && m
            == (CoinbaseMessageV::M2AckSidechain { sidechain_number, data_hash: h })) || (t1
            == 0xd4 && t2 == 0x5a && t3 == 0xa9 && t4 == 0x43 && m
            == (CoinbaseMessageV::M3ProposeBundle { sidechain_number, bundle_txid: h })) || (t1
            == 0xd1 && t2 == 0x61 && t3 == 0x73 && t4 == 0x68 && m
            == (CoinbaseMessageV::M7BmmAccept {
            sidechain_number,
            sidechain_block_hash: h,
        })),
    ensures
        parse_coinbase_message_spec(encode_coinbase_message_spec(m)) == Some(m),
{
    let s = encode_coinbase_message_spec(m);
    crate::bytes::lemma_hash_bytes_len(h);
    assert(s.len() == 38);
    assert(s[0] == 0x6a && s[1] == t1 && s[2] == t2 && s[3] == t3 && s[4] == t4);
    assert(s.skip(5).len() == 33);
    assert(s.skip(5)[0] == sidechain_number);
    assert(s.skip(5).skip(1) =~= hash_bytes(h));
    crate::bytes::lemma_hash_roundtrip(h);
}

#[verifier::rlimit(50)]
proof fn lemma_roundtrip_m4(m4: M4AckBundlesV)
    ensures
        parse_coinbase_message_spec(
            encode_coinbase_message_spec(CoinbaseMessageV::M4AckBundles(m4)),
        ) == Some(CoinbaseMessageV::M4AckBundles(m4)),
{
    let s = encode_coinbase_message_spec(CoinbaseMessageV::M4AckBundles(m4));
    let body = encode_m4_body_spec(m4);
    assert(s.len() >= 6 && s[0] == 0x6a && s[1] == 0xd7 && s[2] == 0x7d && s[3] == 0x17 && s[4]
        == 0x76);
    assert(s.skip(5) =~= body);
    match m4 {
        M4AckBundlesV::RepeatPrevious => {},
        M4AckBundlesV::LeadingBy50 => {},
        M4AckBundlesV::OneByte { upvotes } => {
            assert(body.skip(1) =~= upvotes);
        },
        M4AckBundlesV::TwoBytes { upvotes } => {
            lemma_le16_roundtrip(upvotes);
            assert(body.skip(1) =~= le16_bytes(upvotes));
        },
    }
}

/// Decodes a coinbase output script.
pub fn parse_coinbase_message(script: &Vec<u8>) -> (r: Option<CoinbaseMessage>)
    ensures
        match r {
            Some(m) => parse_coinbase_message_spec(script@) == Some(m@),
            None => parse_coinbase_message_spec(script@) is None,
        },
{
    if script.len() < 5 || script[0] != 0x6a {
        return None;
    }
    let t1 = script[1];
    let t2 = script[2];
    let t3 = script[3];
    let t4 = script[4];
    let ghost body = script@.skip(5);
    if t1 == 0xd5 && t2 == 0xe0 && t3 == 0xc4 && t4 == 0xaf {
        if script.len() >= 6 {
            let data = copy_range(script, 6, script.len());
            proof {
                assert(body[0] == script@[5]);
                assert(data@ =~= body.skip(1));
            }
            Some(CoinbaseMessage::M1ProposeSidechain {
                sidechain_number: script[5],
                data,
            })
        } else {
            None
        }
    } else if t1 == 0xd6 && t2 == 0xe1 && t3 == 0xc5 && t4 == 0xdf {
        if script.len() == 38 {
            let data_hash = read_hash(script, 6);
            proof {
                assert(body[0] == script@[5]);
                assert(script@.subrange(6, 38) =~= body.skip(1));
            }
            Some(CoinbaseMessage::M2AckSidechain { sidechain_number: script[5], data_hash })
        } else {
            None
        }
    } else if t1 == 0xd4 && t2 == 0x5a && t3 == 0xa9 && t4 == 0x43 {
        if script.len() == 38 {
            let bundle_txid = read_hash(script, 6);
            proof {
                assert(body[0] == script@[5]);
                assert(script@.subrange(6, 38) =~= body.skip(1));
            }
            Some(CoinbaseMessage::M3ProposeBundle { sidechain_number: script[5], bundle_txid })
        } else {
            None
        }
    } else if t1 == 0xd7 && t2 == 0x7d && t3 == 0x17 && t4 == 0x76 {
        match parse_m4_body(script) {
            Some(m4) => Some(CoinbaseMessage::M4AckBundles(m4)),
            None => None,
        }
    } else if t1 == 0xd1 && t2 == 0x61 && t3 == 0x73 && t4 == 0x68 {
        if script.len() == 38 {
            let sidechain_block_hash = read_hash(script, 6);
            proof {
                assert(body[0] == script@[5]);
                assert(script@.subrange(6, 38) =~= body.skip(1));
            }
            Some(CoinbaseMessage::M7BmmAccept {
                sidechain_number: script[5],
                sidechain_block_hash,
            })
        } else {
            None
        }
    } else {
        None
    }
}

/// Decodes the body of an ack-bundles script (tag included in `script`).
fn parse_m4_body(script: &Vec<u8>) -> (r: Option<M4AckBundles>)
    requires
        script@.len() >= 5,
    ensures
        match r {
            Some(m4) => parse_m4_body_spec(script@.skip(5)) == Some(m4@),
            None => parse_m4_body_spec(script@.skip(5)) is None,
        },
{
    let ghost body = script@.skip(5);
    if script.len() < 6 {
        return None;
    }
    let form = script[5];
    proof {
        assert(body[0] == script@[5]);
    }
    if form == 0x00 {
        if script.len() == 6 {
            Some(M4AckBundles::RepeatPrevious)
        } else {
            None
        }
    } else if form == 0x01 {
        if script.len() == 6 {
            Some(M4AckBundles::LeadingBy50)
        } else {
            None
        }
    } else if form == 0x02 {
        let upvotes = copy_range(script, 6, script.len());
        proof {
            assert(upvotes@ =~= body.skip(1));
        }
        Some(M4AckBundles::OneByte { upvotes })
    } else if form == 0x03 {
        if (script.len() - 6) % 2 != 0 {
            return None;
        }
        let n = (script.len() - 6) / 2;
        let mut upvotes: Vec<u16> = Vec::new();
        let mut i: usize = 0;
        proof {
            lemma_le16_vals_index(body.skip(1));
        }
        while i < n
            invariant
                i <= n,
                script@.len() == 6 + 2 * n,
                6 + 2 * n <= usize::MAX,
                upvotes@.len() == i,
                body == script@.skip(5),
                le16_vals(body.skip(1)).len() == n,
                forall|j: int| 0 <= j < n ==> le16_vals(body.skip(1))[j] == (body.skip(1)[2 * j]
                    + body.skip(1)[2 * j + 1] * 0x100) as u16,
                forall|j: int| 0 <= j < i ==> upvotes@[j] == le16_vals(body.skip(1))[j],
            decreases n - i,
        {
            let lo = script[6 + 2 * i] as u16;
            let hi = script[6 + 2 * i + 1] as u16;
            let v: u16 = lo + hi * 0x100;
            proof {
                assert(body.skip(1)[2 * i as int] == script@[6 + 2 * i as int]);
                assert(body.skip(1)[2 * i as int + 1] == script@[6 + 2 * i as int + 1]);
                assert(le16_vals(body.skip(1))[i as int] == (body.skip(1)[2 * i as int] + body.skip(
                    1,
                )[2 * i as int + 1] * 0x100) as u16);
            }
            upvotes.push(v);
            i += 1;
        }
        proof {
            assert(upvotes@ =~= le16_vals(body.skip(1)));
        }
        Some(M4AckBundles::TwoBytes { upvotes })
    } else {
        None
    }
}

/// Encodes a coinbase message as an output script.
pub fn encode_coinbase_message(m: &CoinbaseMessage) -> (r: Vec<u8>)
    ensures
        r@ == encode_coinbase_message_spec(m@),
{
    let mut out: Vec<u8> = Vec::new();
    out.push(0x6a);
    match m {
        CoinbaseMessage::M1ProposeSidechain { sidechain_number, data } => {
            out.push(0xd5);
            out.push(0xe0);
            out.push(0xc4);
            out.push(0xaf);
            out.push(*sidechain_number);
            let mut i: usize = 0;
            while i < data.len()
                invariant
                    i <= data@.len(),
                    out@ == seq![0x6au8, 0xd5u8, 0xe0u8, 0xc4u8, 0xafu8, m@->M1ProposeSidechain_sidechain_number]
                        + data@.subrange(0, i as int),
                    data@ == m@->M1ProposeSidechain_data,
                decreases data@.len() - i,
            {
                out.push(data[i]);
                proof {
                    assert(out@ =~= seq![0x6au8, 0xd5u8, 0xe0u8, 0xc4u8, 0xafu8, m@->M1ProposeSidechain_sidechain_number]
                        + data@.subrange(0, i + 1));
                }
                i += 1;
            }
            proof {
                assert(data@.subrange(0, data@.len() as int) =~= data@);
                assert(out@ =~= encode_coinbase_message_spec(m@));
            }
        },
        CoinbaseMessage::M2AckSidechain { sidechain_number, data_hash } => {
            out.push(0xd6);
            out.push(0xe1);
            out.push(0xc5);
            out.push(0xdf);
            out.push(*sidechain_number);
            push_hash(&mut out, data_hash);
            proof {
                assert(out@ =~= encode_coinbase_message_spec(m@));
            }
        },
        CoinbaseMessage::M3ProposeBundle { sidechain_number, bundle_txid } => {
            out.push(0xd4);
            out.push(0x5a);
            out.push(0xa9);
            out.push(0x43);
            out.push(*sidechain_number);
            push_hash(&mut out, bundle_txid);
            proof {
                assert(out@ =~= encode_coinbase_message_spec(m@));
            }
        },
        CoinbaseMessage::M4AckBundles(m4) => {
            out.push(0xd7);
            out.push(0x7d);
            out.push(0x17);
            out.push(0x76);
            encode_m4_body(&mut out, m4);
            proof {
                assert(out@ =~= encode_coinbase_message_spec(m@));
            }
        },
        CoinbaseMessage::M7BmmAccept { sidechain_number, sidechain_block_hash } => {
            out.push(0xd1);
            out.push(0x61);
            out.push(0x73);
            out.push(0x68);
            out.push(*sidechain_number);
            push_hash(&mut out, sidechain_block_hash);
            proof {
                assert(out@ =~= encode_coinbase_message_spec(m@));
            }
        },
    }
    out
}

/// Appends the body of an ack-bundles message.
fn encode_m4_body(out: &mut Vec<u8>, m4: &M4AckBundles)
    ensures
        final(out)@ == old(out)@ + encode_m4_body_spec(m4@),
{
    match m4 {
        M4AckBundles::RepeatPrevious => {
            out.push(0x00);
            proof {
                assert(out@ =~= old(out)@ + encode_m4_body_spec(m4@));
            }
        },
        M4AckBundles::LeadingBy50 => {
            out.push(0x01);
            proof {
                assert(out@ =~= old(out)@ + encode_m4_body_spec(m4@));
            }
        },
        M4AckBundles::OneByte { upvotes } => {
            out.push(0x02);
            let mut i: usize = 0;
            while i < upvotes.len()
                invariant
                    i <= upvotes@.len(),
                    out@ == old(out)@ + seq![0x02u8] + upvotes@.subrange(0, i as int),
                    upvotes@ == m4@->OneByte_upvotes,
                decreases upvotes@.len() - i,
            {
                out.push(upvotes[i]);
                proof {
                    assert(out@ =~= old(out)@ + seq![0x02u8] + upvotes@.subrange(0, i + 1));
                }
                i += 1;
            }
            proof {
                assert(upvotes@.subrange(0, upvotes@.len() as int) =~= upvotes@);
                assert(out@ =~= old(out)@ + encode_m4_body_spec(m4@));
            }
        },
        M4AckBundles::TwoBytes { upvotes } => {
            out.push(0x03);
            let ghost gup = upvotes@;
            proof {
                lemma_le16_bytes_index(gup);
            }
            let mut i: usize = 0;
            while i < upvotes.len()
                invariant
                    i <= upvotes@.len(),
                    upvotes@ == gup,
                    le16_bytes(gup).len() == 2 * gup.len(),
                    forall|j: int| 0 <= j < gup.len() ==> le16_bytes(gup)[2 * j] == (gup[j]
                        % 0x100) as u8 && le16_bytes(gup)[2 * j + 1] == (gup[j] / 0x100) as u8,
                    out@ == old(out)@ + seq![0x03u8] + le16_bytes(gup).subrange(0, 2 * i as int),
                decreases upvotes@.len() - i,
            {
                let v = upvotes[i];
                out.push((v % 0x100) as u8);
                out.push((v / 0x100) as u8);
                proof {
                    assert(out@ =~= old(out)@ + seq![0x03u8] + le16_bytes(gup).subrange(
                        0,
                        2 * (i + 1),
                    ));
                }
                i += 1;
            }
            proof {
                assert(le16_bytes(gup).subrange(0, le16_bytes(gup).len() as int) =~= le16_bytes(
                    gup,
                ));
                assert(out@ =~= old(out)@ + encode_m4_body_spec(m4@));
            }
        },
    }
}

pub proof fn lemma_le16_bytes_index(u: Seq<u16>)
    ensures
        le16_bytes(u).len() == 2 * u.len(),
        forall|j: int|
            0 <= j < u.len() ==> le16_bytes(u)[2 * j] == (u[j] % 0x100) as u8 && le16_bytes(
                u,
            )[2 * j + 1] == (u[j] / 0x100) as u8,
    decreases u.len(),
{
    if u.len() == 0 {
    } else {
        lemma_le16_bytes_index(u.skip(1));
        assert forall|j: int| 0 <= j < u.len() implies le16_bytes(u)[2 * j] == (u[j]
            % 0x100) as u8 && le16_bytes(u)[2 * j + 1] == (u[j] / 0x100) as u8 by {
            if j > 0 {
                assert(le16_bytes(u.skip(1))[2 * (j - 1)] == (u.skip(1)[j - 1] % 0x100) as u8);
                assert(le16_bytes(u.skip(1))[2 * (j - 1) + 1] == (u.skip(1)[j - 1] / 0x100) as u8);
                assert(u.skip(1)[j - 1] == u[j]);
                assert(le16_bytes(u)[2 * j] == le16_bytes(u.skip(1))[2 * (j - 1)]);
                assert(le16_bytes(u)[2 * j + 1] == le16_bytes(u.skip(1))[2 * (j - 1) + 1]);
            }
        }
    }
}

/// What a treasury output script says, if anything: the slot whose
/// OP_DRIVECHAIN form the script is.
pub open spec fn parse_op_drivechain_spec(s: Seq<u8>) -> Option<u8> {
    if s.len() == 4 && s[0] == 0xb4 && s[1] == 0x01 && s[3] == 0x51 {
        Some(s[2])
    } else {
        None
    }
}

/// Decodes a treasury output script.
pub fn parse_op_drivechain(script: &Vec<u8>) -> (r: Option<u8>)
    ensures
        r == parse_op_drivechain_spec(script@),
{
    if script.len() == 4 && script[0] == 0xb4 && script[1] == 0x01 && script[3] == 0x51 {
        Some(script[2])
    } else {
        None
    }
}

/// Encodes the treasury output script of a slot.
pub fn encode_op_drivechain(sidechain_number: u8) -> (r: Vec<u8>)
    ensures
        parse_op_drivechain_spec(r@) == Some(sidechain_number),
{
    let mut out: Vec<u8> = Vec::new();
    out.push(0xb4);
    out.push(0x01);
    out.push(sidechain_number);
    out.push(0x51);
    out
}

/// What a BMM request script says, if anything.
pub open spec fn parse_m8_bmm_request_spec(s: Seq<u8>) -> Option<M8BmmRequest> {
    if s.len() == 70 && s[0] == 0x6a && s[1] == 0xd0 && s[2] == 0x52 && s[3] == 0x0c && s[4]
        == 0x6e {
        Some(M8BmmRequest {
            sidechain_number: s[5],
            sidechain_block_hash: hash_from_bytes(s.subrange(6, 38)),
            prev_mainchain_block_hash: hash_from_bytes(s.subrange(38, 70)),
        })
    } else {
        None
    }
}

/// Decodes a BMM request script.
pub fn parse_m8_bmm_request(script: &Vec<u8>) -> (r: Option<M8BmmRequest>)
    ensures
        r == parse_m8_bmm_request_spec(script@),
{
    if script.len() == 70 && script[0] == 0x6a && script[1] == 0xd0 && script[2] == 0x52
        && script[3] == 0x0c && script[4] == 0x6e {
        let sidechain_block_hash = read_hash(script, 6);
        let prev_mainchain_block_hash = read_hash(script, 38);
        Some(M8BmmRequest {
            sidechain_number: script[5],
            sidechain_block_hash,
            prev_mainchain_block_hash,
        })
    } else {
        None
    }
}

/// Encodes a BMM request as an output script.
#[verifier::rlimit(50)]
pub fn encode_m8_bmm_request(request: &M8BmmRequest) -> (r: Vec<u8>)
    ensures
        parse_m8_bmm_request_spec(r@) == Some(*request),
{
    let mut out: Vec<u8> = Vec::new();
    out.push(0x6a);
    out.push(0xd0);
    out.push(0x52);
    out.push(0x0c);
    out.push(0x6e);
    out.push(request.sidechain_number);
    push_hash(&mut out, &request.sidechain_block_hash);
    push_hash(&mut out, &request.prev_mainchain_block_hash);
    proof {
        assert(out@.len() == 70);
        assert(out@[0] == 0x6a && out@[1] == 0xd0 && out@[2] == 0x52 && out@[3] == 0x0c && out@[4]
            == 0x6e && out@[5] == request.sidechain_number);
        assert(out@.subrange(6, 38) =~= hash_bytes(request.sidechain_block_hash));
        assert(out@.subrange(38, 70) =~= hash_bytes(request.prev_mainchain_block_hash));
        crate::bytes::lemma_hash_roundtrip(request.sidechain_block_hash);
        crate::bytes::lemma_hash_roundtrip(request.prev_mainchain_block_hash);
    }
    out
}

/// The coinbase outputs that carry the given messages, in order: one
/// zero-value output per message, holding its script. Serializing a
/// transaction around them yields the coinbase template the RPC surface
/// hands to miners.
pub fn coinbase_outputs(messages: &Vec<CoinbaseMessage>) -> (r: Vec<crate::types::TxOut>)
    ensures
        r@.len() == messages@.len(),
        forall|j: int| 0 <= j < r@.len() ==> (#[trigger] r@[j]).value == 0 && r@[j]@.script_pubkey
            == encode_coinbase_message_spec(messages@[j]@),
{
    let mut r: Vec<crate::types::TxOut> = Vec::new();
    let mut i: usize = 0;
    while i < messages.len()
        invariant
            i <= messages@.len(),
            r@.len() == i,
            forall|j: int| 0 <= j < i ==> (#[trigger] r@[j]).value == 0 && r@[j]@.script_pubkey
                == encode_coinbase_message_spec(messages@[j]@),
        decreases messages@.len() - i,
    {
        let script = encode_coinbase_message(&messages[i]);
        r.push(crate::types::TxOut { value: 0, script_pubkey: script });
        i += 1;
    }
    r
}

} // verus!
