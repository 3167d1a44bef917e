//! The protocol message variants, their wire identifiers, and the decode
//! error taxonomy.
//!
//! Numbers of up to 256 bits (total difficulty, block number) are carried as
//! minimal big-endian byte strings; hashes as 32-byte strings. Transaction,
//! header and block payloads are opaque to this layer and carried as raw
//! wire items.

use vstd::prelude::*;

use crate::item::{models_of, ItemModel, RlpItem};

verus! {

/// Models of a sequence of (hash, number) pairs.
pub open spec fn pairs_view(ps: Seq<(Vec<u8>, Vec<u8>)>) -> Seq<(Seq<u8>, Seq<u8>)> {
    Seq::new(ps.len(), |i: int| (ps[i].0@, ps[i].1@))
}

/// Models of a sequence of byte strings.
pub open spec fn bytes_view(hs: Seq<Vec<u8>>) -> Seq<Seq<u8>> {
    Seq::new(hs.len(), |i: int| hs[i]@)
}

/// Models of a sequence of (transaction list, ommer list) pairs.
pub open spec fn bodies_view(bs: Seq<(Vec<RlpItem>, Vec<RlpItem>)>) -> Seq<(Seq<ItemModel>, Seq<ItemModel>)> {
    Seq::new(bs.len(), |i: int| (models_of(bs[i].0@), models_of(bs[i].1@)))
}

/// Why a record failed to decode.
#[derive(Debug, Clone, Copy, PartialEq, Eq)]
pub enum DecodeError {
    /// A required positional field is absent.
    MissingField,
    /// A field has the wrong shape: a list where a scalar was expected (or
    /// the reverse), a hash of the wrong width, or a number with a leading
    /// zero byte.
    WrongShape,
    /// A numeric field is wider than its declared width.
    NumericOverflow,
    /// The record, or a sub-record, is not a list where one was expected.
    MalformedList,
}

/// A protocol message. Identifiers 0 through 7 are recognized; any other
/// inbound identifier decodes to `Unknown`.
#[derive(Debug, PartialEq, Eq)]
pub enum ETHMessage {
    Status {
        protocol_version: u64,
        network_id: u64,
        total_difficulty: Vec<u8>,
        best_hash: Vec<u8>,
        genesis_hash: Vec<u8>,
    },
    NewBlockHashes(Vec<(Vec<u8>, Vec<u8>)>),
    Transactions(Vec<RlpItem>),
    GetBlockHeadersByNumber { number: Vec<u8>, max_headers: u64, skip: u64, reverse: bool },
    GetBlockHeadersByHash { hash: Vec<u8>, max_headers: u64, skip: u64, reverse: bool },
    BlockHeaders(Vec<RlpItem>),
    GetBlockBodies(Vec<Vec<u8>>),
    BlockBodies(Vec<(Vec<RlpItem>, Vec<RlpItem>)>),
    NewBlock { block: RlpItem, total_difficulty: Vec<u8> },
    Unknown,
}

/// Mathematical model of a protocol message.
#[verifier::ext_equal]
pub enum MsgModel {
    Status {
        protocol_version: u64,
        network_id: u64,
        total_difficulty: Seq<u8>,
        best_hash: Seq<u8>,
        genesis_hash: Seq<u8>,
    },
    NewBlockHashes(Seq<(Seq<u8>, Seq<u8>)>),
    Transactions(Seq<ItemModel>),
    GetBlockHeadersByNumber { number: Seq<u8>, max_headers: u64, skip: u64, reverse: bool },
    GetBlockHeadersByHash { hash: Seq<u8>, max_headers: u64, skip: u64, reverse: bool },
    BlockHeaders(Seq<ItemModel>),
    GetBlockBodies(Seq<Seq<u8>>),
    BlockBodies(Seq<(Seq<ItemModel>, Seq<ItemModel>)>),
    NewBlock { block: ItemModel, total_difficulty: Seq<u8> },
    Unknown,
}

impl View for ETHMessage {
    type V = MsgModel;

    open spec fn view(&self) -> MsgModel {
        match *self {
            ETHMessage::Status {
                protocol_version,
                network_id,
                ref total_difficulty,
                ref best_hash,
                ref genesis_hash,
            } => MsgModel::Status {
                protocol_version,
                network_id,
                total_difficulty: total_difficulty@,
                best_hash: best_hash@,
                genesis_hash: genesis_hash@,
            },
            ETHMessage::NewBlockHashes(ref ps) => MsgModel::NewBlockHashes(pairs_view(ps@)),
            ETHMessage::Transactions(ref its) => MsgModel::Transactions(models_of(its@)),
            ETHMessage::GetBlockHeadersByNumber { ref number, max_headers, skip, reverse } => {
                MsgModel::GetBlockHeadersByNumber { number: number@, max_headers, skip, reverse }
            },
            ETHMessage::GetBlockHeadersByHash { ref hash, max_headers, skip, reverse } => {
                MsgModel::GetBlockHeadersByHash { hash: hash@, max_headers, skip, reverse }
            },
            ETHMessage::BlockHeaders(ref its) => MsgModel::BlockHeaders(models_of(its@)),
            ETHMessage::GetBlockBodies(ref hs) => MsgModel::GetBlockBodies(bytes_view(hs@)),
            ETHMessage::BlockBodies(ref bs) => MsgModel::BlockBodies(bodies_view(bs@)),
            ETHMessage::NewBlock { ref block, ref total_difficulty } => MsgModel::NewBlock {
                block: block@,
                total_difficulty: total_difficulty@,
            },
            ETHMessage::Unknown => MsgModel::Unknown,
        }
    }
}

/// A canonical number of at most 256 bits: at most 32 bytes, no leading zero.
pub open spec fn num_ok(b: Seq<u8>) -> bool {
    b.len() <= 32 && (b.len() == 0 || b[0] != 0)
}

/// A 256-bit hash: exactly 32 bytes.
pub open spec fn hash_ok(b: Seq<u8>) -> bool {
    b.len() == 32
}

impl MsgModel {
    /// A message whose numeric and hash fields have their declared widths.
    pub open spec fn wf(self) -> bool {
        match self {
            MsgModel::Status { total_difficulty, best_hash, genesis_hash, .. } => {
                &&& num_ok(total_difficulty)
                &&& hash_ok(best_hash)
                &&& hash_ok(genesis_hash)
            },
            MsgModel::NewBlockHashes(ps) => forall|i: int|
                0 <= i < ps.len() ==> hash_ok(#[trigger] ps[i].0) && num_ok(ps[i].1),
            MsgModel::GetBlockHeadersByNumber { number, .. } => num_ok(number),
            MsgModel::GetBlockHeadersByHash { hash, .. } => hash_ok(hash),
            MsgModel::GetBlockBodies(hs) => forall|i: int|
                0 <= i < hs.len() ==> hash_ok(#[trigger] hs[i]),
            MsgModel::NewBlock { total_difficulty, .. } => num_ok(total_difficulty),
            _ => true,
        }
    }
}

/// The wire identifier of each message variant. Both header-request variants
/// share identifier 3; `Unknown` carries the reserved identifier 127.
pub open spec fn spec_id(m: MsgModel) -> usize {
    match m {
        MsgModel::Status { .. } => 0,
        MsgModel::NewBlockHashes(_) => 1,
        MsgModel::Transactions(_) => 2,
        MsgModel::GetBlockHeadersByNumber { .. } => 3,
        MsgModel::GetBlockHeadersByHash { .. } => 3,
        MsgModel::BlockHeaders(_) => 4,
        MsgModel::GetBlockBodies(_) => 5,
        MsgModel::BlockBodies(_) => 6,
        MsgModel::NewBlock { .. } => 7,
        MsgModel::Unknown => 127,
    }
}

impl ETHMessage {
    /// Get the message id of the message.
    pub fn id(&self) -> (r: usize)
        ensures
            r == spec_id(self@),
    {
        match self {
            ETHMessage::Status { .. } => 0,
            ETHMessage::NewBlockHashes(_) => 1,
            ETHMessage::Transactions(_) => 2,
            ETHMessage::GetBlockHeadersByNumber { .. } => 3,
            ETHMessage::GetBlockHeadersByHash { .. } => 3,
            ETHMessage::BlockHeaders(_) => 4,
            ETHMessage::GetBlockBodies(_) => 5,
            ETHMessage::BlockBodies(_) => 6,
            ETHMessage::NewBlock { .. } => 7,
            ETHMessage::Unknown => 127,
        }
    }
}

} // verus!
