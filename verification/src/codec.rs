//! Decode and encode rules between wire records and typed messages.
//!
//! Decoding dispatches strictly on the message identifier; identifier 3 is
//! disambiguated by the byte width of the record's first item (exactly 32
//! bytes means a hash, anything else a block number). Encoding is the
//! structural inverse: same field order, same list-versus-scalar shapes,
//! booleans written as 0 or 1.

use vstd::prelude::*;

use crate::item::{clone_bytes, clone_items, lemma_models_of, models_of, ItemModel, RlpItem};
use crate::message::{
    bodies_view, bytes_view, pairs_view, DecodeError, ETHMessage, MsgModel,
};
use crate::numbers::{
    be, be_to_u64, be_val, lemma_be_val_bound, lemma_pow256_8, lemma_pow256_le, u64_to_be,
};

verus! {

// ---------------------------------------------------------------------------
// Field decoders over the record model.
// ---------------------------------------------------------------------------

/// The item at position `i`, or `MissingField` past the end of the record.
pub open spec fn field(items: Seq<ItemModel>, i: int) -> Result<ItemModel, DecodeError> {
    if 0 <= i < items.len() {
        Ok(items[i])
    } else {
        Err(DecodeError::MissingField)
    }
}

/// A 64-bit unsigned field: a canonical big-endian scalar of at most 8 bytes.
pub open spec fn dec_u64(it: ItemModel) -> Result<u64, DecodeError> {
    match it {
        ItemModel::List(_) => Err(DecodeError::WrongShape),
        ItemModel::Scalar(b) => if b.len() > 8 {
            Err(DecodeError::NumericOverflow)
        } else if b.len() > 0 && b[0] == 0 {
            Err(DecodeError::WrongShape)
        } else {
            Ok(be_val(b) as u64)
        },
    }
}

/// A 256-bit unsigned field, kept as its canonical big-endian bytes.
pub open spec fn dec_num(it: ItemModel) -> Result<Seq<u8>, DecodeError> {
    match it {
        ItemModel::List(_) => Err(DecodeError::WrongShape),
        ItemModel::Scalar(b) => if b.len() > 32 {
            Err(DecodeError::NumericOverflow)
        } else if b.len() > 0 && b[0] == 0 {
            Err(DecodeError::WrongShape)
        } else {
            Ok(b)
        },
    }
}

/// A 256-bit hash field: a scalar of exactly 32 bytes.
pub open spec fn dec_hash(it: ItemModel) -> Result<Seq<u8>, DecodeError> {
    match it {
        ItemModel::List(_) => Err(DecodeError::WrongShape),
        ItemModel::Scalar(b) => if b.len() == 32 {
            Ok(b)
        } else {
            Err(DecodeError::WrongShape)
        },
    }
}

/// The boolean `reverse` field, carried as a 32-bit unsigned integer:
/// `false` iff the canonical scalar is empty (zero), `true` for any nonzero
/// value.
pub open spec fn dec_flag(it: ItemModel) -> Result<bool, DecodeError> {
    match it {
        ItemModel::List(_) => Err(DecodeError::WrongShape),
        ItemModel::Scalar(b) => if b.len() > 4 {
            Err(DecodeError::NumericOverflow)
        } else if b.len() > 0 && b[0] == 0 {
            Err(DecodeError::WrongShape)
        } else {
            Ok(b.len() > 0)
        },
    }
}

pub open spec fn fld_u64(items: Seq<ItemModel>, i: int) -> Result<u64, DecodeError> {
    match field(items, i) {
        Err(e) => Err(e),
        Ok(f) => dec_u64(f),
    }
}

pub open spec fn fld_num(items: Seq<ItemModel>, i: int) -> Result<Seq<u8>, DecodeError> {
    match field(items, i) {
        Err(e) => Err(e),
        Ok(f) => dec_num(f),
    }
}

pub open spec fn fld_hash(items: Seq<ItemModel>, i: int) -> Result<Seq<u8>, DecodeError> {
    match field(items, i) {
        Err(e) => Err(e),
        Ok(f) => dec_hash(f),
    }
}

pub open spec fn fld_flag(items: Seq<ItemModel>, i: int) -> Result<bool, DecodeError> {
    match field(items, i) {
        Err(e) => Err(e),
        Ok(f) => dec_flag(f),
    }
}

// ---------------------------------------------------------------------------
// Per-identifier record decoders.
// ---------------------------------------------------------------------------

/// Identifier 0: five positional scalar fields, in fixed order.
pub open spec fn dec_status(items: Seq<ItemModel>) -> Result<MsgModel, DecodeError> {
    match fld_u64(items, 0) {
        Err(e) => Err(e),
        Ok(protocol_version) => match fld_u64(items, 1) {
            Err(e) => Err(e),
            Ok(network_id) => match fld_num(items, 2) {
                Err(e) => Err(e),
                Ok(total_difficulty) => match fld_hash(items, 3) {
                    Err(e) => Err(e),
                    Ok(best_hash) => match fld_hash(items, 4) {
                        Err(e) => Err(e),
                        Ok(genesis_hash) => Ok(MsgModel::Status {
                            protocol_version,
                            network_id,
                            total_difficulty,
                            best_hash,
                            genesis_hash,
                        }),
                    },
                },
            },
        },
    }
}

/// One (hash, number) pair of a new-block-hashes record.
pub open spec fn dec_pair(it: ItemModel) -> Result<(Seq<u8>, Seq<u8>), DecodeError> {
    match it {
        ItemModel::Scalar(_) => Err(DecodeError::MalformedList),
        ItemModel::List(fs) => match fld_hash(fs, 0) {
            Err(e) => Err(e),
            Ok(h) => match fld_num(fs, 1) {
                Err(e) => Err(e),
                Ok(n) => Ok((h, n)),
            },
        },
    }
}

/// Identifier 1: each record entry decoded independently, in order; an empty
/// record yields zero pairs.
pub open spec fn dec_pairs(items: Seq<ItemModel>) -> Result<
    Seq<(Seq<u8>, Seq<u8>)>,
    DecodeError,
>
    decreases items.len(),
{
    if items.len() == 0 {
        Ok(Seq::empty())
    } else {
        match dec_pairs(items.drop_last()) {
            Err(e) => Err(e),
            Ok(rs) => match dec_pair(items.last()) {
                Err(e) => Err(e),
                Ok(p) => Ok(rs.push(p)),
            },
        }
    }
}

/// Identifier 5: every entry a 32-byte hash.
pub open spec fn dec_hashes(items: Seq<ItemModel>) -> Result<Seq<Seq<u8>>, DecodeError>
    decreases items.len(),
{
    if items.len() == 0 {
        Ok(Seq::empty())
    } else {
        match dec_hashes(items.drop_last()) {
            Err(e) => Err(e),
            Ok(rs) => match dec_hash(items.last()) {
                Err(e) => Err(e),
                Ok(h) => Ok(rs.push(h)),
            },
        }
    }
}

/// One block body: a pair of two sub-lists (transactions, ommer headers),
/// both opaque to this layer.
pub open spec fn dec_body(it: ItemModel) -> Result<(Seq<ItemModel>, Seq<ItemModel>), DecodeError> {
    match it {
        ItemModel::Scalar(_) => Err(DecodeError::MalformedList),
        ItemModel::List(fs) => match field(fs, 0) {
            Err(e) => Err(e),
            Ok(f0) => match f0 {
                ItemModel::Scalar(_) => Err(DecodeError::MalformedList),
                ItemModel::List(txs) => match field(fs, 1) {
                    Err(e) => Err(e),
                    Ok(f1) => match f1 {
                        ItemModel::Scalar(_) => Err(DecodeError::MalformedList),
                        ItemModel::List(ommers) => Ok((txs, ommers)),
                    },
                },
            },
        },
    }
}

/// Identifier 6: each entry a (transaction-list, ommer-list) pair.
pub open spec fn dec_bodies(items: Seq<ItemModel>) -> Result<
    Seq<(Seq<ItemModel>, Seq<ItemModel>)>,
    DecodeError,
>
    decreases items.len(),
{
    if items.len() == 0 {
        Ok(Seq::empty())
    } else {
        match dec_bodies(items.drop_last()) {
            Err(e) => Err(e),
            Ok(rs) => match dec_body(items.last()) {
                Err(e) => Err(e),
                Ok(b) => Ok(rs.push(b)),
            },
        }
    }
}

/// Does the record's first item have the shape of a hash: a scalar of
/// exactly 32 raw bytes?
pub open spec fn first_is_hash(items: Seq<ItemModel>) -> bool {
    items.len() > 0 && (items[0] matches ItemModel::Scalar(b) && b.len() == 32)
}

/// Identifier 3: the `reverse` flag is read first (position 3); then the
/// byte width of the item at position 0 selects the by-hash variant (exactly
/// 32 bytes) or the by-number variant (any other width or shape).
pub open spec fn dec_get_headers(items: Seq<ItemModel>) -> Result<MsgModel, DecodeError> {
    match fld_flag(items, 3) {
        Err(e) => Err(e),
        Ok(reverse) => if first_is_hash(items) {
            match fld_hash(items, 0) {
                Err(e) => Err(e),
                Ok(hash) => match fld_u64(items, 1) {
                    Err(e) => Err(e),
                    Ok(max_headers) => match fld_u64(items, 2) {
                        Err(e) => Err(e),
                        Ok(skip) => Ok(MsgModel::GetBlockHeadersByHash {
                            hash,
                            max_headers,
                            skip,
                            reverse,
                        }),
                    },
                },
            }
        } else {
            match fld_num(items, 0) {
                Err(e) => Err(e),
                Ok(number) => match fld_u64(items, 1) {
                    Err(e) => Err(e),
                    Ok(max_headers) => match fld_u64(items, 2) {
                        Err(e) => Err(e),
                        Ok(skip) => Ok(MsgModel::GetBlockHeadersByNumber {
                            number,
                            max_headers,
                            skip,
                            reverse,
                        }),
                    },
                },
            }
        },
    }
}

/// Identifier 7: one opaque block record and a total difficulty.
pub open spec fn dec_new_block(items: Seq<ItemModel>) -> Result<MsgModel, DecodeError> {
    match field(items, 0) {
        Err(e) => Err(e),
        Ok(block) => match fld_num(items, 1) {
            Err(e) => Err(e),
            Ok(total_difficulty) => Ok(MsgModel::NewBlock { block, total_difficulty }),
        },
    }
}

// ---------------------------------------------------------------------------
// Decode: dispatch strictly by identifier.
// ---------------------------------------------------------------------------

/// What decoding a record model with a given identifier yields. Identifiers
/// outside 0..=7 always yield `Unknown`, whatever the record holds.
pub open spec fn spec_decode(t: ItemModel, id: usize) -> Result<MsgModel, DecodeError> {
    if id > 7 {
        Ok(MsgModel::Unknown)
    } else {
        match t {
            ItemModel::Scalar(_) => Err(DecodeError::MalformedList),
            ItemModel::List(items) => if id == 0 {
                dec_status(items)
            } else if id == 1 {
                match dec_pairs(items) {
                    Err(e) => Err(e),
                    Ok(ps) => Ok(MsgModel::NewBlockHashes(ps)),
                }
            } else if id == 2 {
                Ok(MsgModel::Transactions(items))
            } else if id == 3 {
                dec_get_headers(items)
            } else if id == 4 {
                Ok(MsgModel::BlockHeaders(items))
            } else if id == 5 {
                match dec_hashes(items) {
                    Err(e) => Err(e),
                    Ok(hs) => Ok(MsgModel::GetBlockBodies(hs)),
                }
            } else if id == 6 {
                match dec_bodies(items) {
                    Err(e) => Err(e),
                    Ok(bs) => Ok(MsgModel::BlockBodies(bs)),
                }
            } else {
                dec_new_block(items)
            },
        }
    }
}

// ---------------------------------------------------------------------------
// Encode: the structural inverse.
// ---------------------------------------------------------------------------

/// Wire bytes of the boolean `reverse` flag: 1 for true, 0 (the empty
/// canonical scalar) for false.
pub open spec fn enc_flag(reverse: bool) -> Seq<u8> {
    if reverse {
        seq![1u8]
    } else {
        Seq::empty()
    }
}

/// Encoded entries of a new-block-hashes record.
pub open spec fn enc_pairs(ps: Seq<(Seq<u8>, Seq<u8>)>) -> Seq<ItemModel> {
    Seq::new(
        ps.len(),
        |i: int| ItemModel::List(seq![ItemModel::Scalar(ps[i].0), ItemModel::Scalar(ps[i].1)]),
    )
}

/// Encoded entries of a get-block-bodies record.
pub open spec fn enc_hashes(hs: Seq<Seq<u8>>) -> Seq<ItemModel> {
    Seq::new(hs.len(), |i: int| ItemModel::Scalar(hs[i]))
}

/// Encoded entries of a block-bodies record.
pub open spec fn enc_bodies(bs: Seq<(Seq<ItemModel>, Seq<ItemModel>)>) -> Seq<ItemModel> {
    Seq::new(
        bs.len(),
        |i: int| ItemModel::List(seq![ItemModel::List(bs[i].0), ItemModel::List(bs[i].1)]),
    )
}

/// The record model a message encodes to.
pub open spec fn spec_encode(m: MsgModel) -> ItemModel {
    match m {
        MsgModel::Status {
            protocol_version,
            network_id,
            total_difficulty,
            best_hash,
            genesis_hash,
        } => ItemModel::List(
            seq![
                ItemModel::Scalar(be(protocol_version as nat)),
                ItemModel::Scalar(be(network_id as nat)),
                ItemModel::Scalar(total_difficulty),
                ItemModel::Scalar(best_hash),
                ItemModel::Scalar(genesis_hash),
            ],
        ),
        MsgModel::NewBlockHashes(ps) => ItemModel::List(enc_pairs(ps)),
        MsgModel::Transactions(its) => ItemModel::List(its),
        MsgModel::GetBlockHeadersByNumber { number, max_headers, skip, reverse } => ItemModel::List(
            seq![
                ItemModel::Scalar(number),
                ItemModel::Scalar(be(max_headers as nat)),
                ItemModel::Scalar(be(skip as nat)),
                ItemModel::Scalar(enc_flag(reverse)),
            ],
        ),
        MsgModel::GetBlockHeadersByHash { hash, max_headers, skip, reverse } => ItemModel::List(
            seq![
                ItemModel::Scalar(hash),
                ItemModel::Scalar(be(max_headers as nat)),
                ItemModel::Scalar(be(skip as nat)),
                ItemModel::Scalar(enc_flag(reverse)),
            ],
        ),
        MsgModel::BlockHeaders(its) => ItemModel::List(its),
        MsgModel::GetBlockBodies(hs) => ItemModel::List(enc_hashes(hs)),
        MsgModel::BlockBodies(bs) => ItemModel::List(enc_bodies(bs)),
        MsgModel::NewBlock { block, total_difficulty } => ItemModel::List(
            seq![block, ItemModel::Scalar(total_difficulty)],
        ),
        MsgModel::Unknown => ItemModel::List(Seq::empty()),
    }
}

// ---------------------------------------------------------------------------
// Executable field decoders.
// ---------------------------------------------------------------------------

fn get_field<'a>(items: &'a Vec<RlpItem>, i: usize) -> (r: Result<&'a RlpItem, DecodeError>)
    ensures
        r matches Ok(f) ==> field(models_of(items@), i as int) == Ok::<ItemModel, DecodeError>(f@),
        r matches Err(e) ==> field(models_of(items@), i as int) == Err::<ItemModel, DecodeError>(e),
{
    proof {
        lemma_models_of(items@);
    }
    if i < items.len() {
        Ok(&items[i])
    } else {
        Err(DecodeError::MissingField)
    }
}

fn take_u64(it: &RlpItem) -> (r: Result<u64, DecodeError>)
    ensures
        r == dec_u64(it@),
{
    match it {
        RlpItem::List(_) => Err(DecodeError::WrongShape),
        RlpItem::Str(b) => {
            if b.len() > 8 {
                Err(DecodeError::NumericOverflow)
            } else if b.len() > 0 && b[0] == 0 {
                Err(DecodeError::WrongShape)
            } else {
                proof {
                    lemma_be_val_bound(b@);
                    lemma_pow256_le(b@.len(), 8);
                    lemma_pow256_8();
                }
                Ok(be_to_u64(b))
            }
        },
    }
}

fn take_num(it: &RlpItem) -> (r: Result<Vec<u8>, DecodeError>)
    ensures
        r matches Ok(v) ==> dec_num(it@) == Ok::<Seq<u8>, DecodeError>(v@),
        r matches Err(e) ==> dec_num(it@) == Err::<Seq<u8>, DecodeError>(e),
{
    match it {
        RlpItem::List(_) => Err(DecodeError::WrongShape),
        RlpItem::Str(b) => {
            if b.len() > 32 {
                Err(DecodeError::NumericOverflow)
            } else if b.len() > 0 && b[0] == 0 {
                Err(DecodeError::WrongShape)
            } else {
                Ok(clone_bytes(b))
            }
        },
    }
}

fn take_hash(it: &RlpItem) -> (r: Result<Vec<u8>, DecodeError>)
    ensures
        r matches Ok(v) ==> dec_hash(it@) == Ok::<Seq<u8>, DecodeError>(v@),
        r matches Err(e) ==> dec_hash(it@) == Err::<Seq<u8>, DecodeError>(e),
{
    match it {
        RlpItem::List(_) => Err(DecodeError::WrongShape),
        RlpItem::Str(b) => {
            if b.len() == 32 {
                Ok(clone_bytes(b))
            } else {
                Err(DecodeError::WrongShape)
            }
        },
    }
}

fn take_flag(it: &RlpItem) -> (r: Result<bool, DecodeError>)
    ensures
        r == dec_flag(it@),
{
    match it {
        RlpItem::List(_) => Err(DecodeError::WrongShape),
        RlpItem::Str(b) => {
            if b.len() > 4 {
                Err(DecodeError::NumericOverflow)
            } else if b.len() > 0 && b[0] == 0 {
                Err(DecodeError::WrongShape)
            } else {
                Ok(b.len() > 0)
            }
        },
    }
}

fn take_pair(it: &RlpItem) -> (r: Result<(Vec<u8>, Vec<u8>), DecodeError>)
    ensures
        r matches Ok(p) ==> dec_pair(it@) == Ok::<(Seq<u8>, Seq<u8>), DecodeError>((p.0@, p.1@)),
        r matches Err(e) ==> dec_pair(it@) == Err::<(Seq<u8>, Seq<u8>), DecodeError>(e),
{
    match it {
        RlpItem::Str(_) => Err(DecodeError::MalformedList),
        RlpItem::List(fs) => {
            let f0 = match get_field(fs, 0) {
                Ok(f) => f,
                Err(e) => return Err(e),
            };
            let h = match take_hash(f0) {
                Ok(v) => v,
                Err(e) => return Err(e),
            };
            let f1 = match get_field(fs, 1) {
                Ok(f) => f,
                Err(e) => return Err(e),
            };
            let n = match take_num(f1) {
                Ok(v) => v,
                Err(e) => return Err(e),
            };
            Ok((h, n))
        },
    }
}

fn take_body(it: &RlpItem) -> (r: Result<(Vec<RlpItem>, Vec<RlpItem>), DecodeError>)
    ensures
        r matches Ok(p) ==> dec_body(it@) == Ok::<(Seq<ItemModel>, Seq<ItemModel>), DecodeError>(
            (models_of(p.0@), models_of(p.1@)),
        ),
        r matches Err(e) ==> dec_body(it@) == Err::<(Seq<ItemModel>, Seq<ItemModel>), DecodeError>(
            e,
        ),
{
    match it {
        RlpItem::Str(_) => Err(DecodeError::MalformedList),
        RlpItem::List(fs) => {
            let f0 = match get_field(fs, 0) {
                Ok(f) => f,
                Err(e) => return Err(e),
            };
            let txs = match f0 {
                RlpItem::Str(_) => return Err(DecodeError::MalformedList),
                RlpItem::List(a) => clone_items(a),
            };
            let f1 = match get_field(fs, 1) {
                Ok(f) => f,
                Err(e) => return Err(e),
            };
            let ommers = match f1 {
                RlpItem::Str(_) => return Err(DecodeError::MalformedList),
                RlpItem::List(b) => clone_items(b),
            };
            Ok((txs, ommers))
        },
    }
}

// ---------------------------------------------------------------------------
// Prefix lemmas: once a prefix of a record fails to decode, the whole record
// fails with the same error.
// ---------------------------------------------------------------------------

proof fn lemma_dec_pairs_prefix(items: Seq<ItemModel>, i: int)
    requires
        0 <= i <= items.len(),
        dec_pairs(items.take(i)) is Err,
    ensures
        dec_pairs(items) == dec_pairs(items.take(i)),
    decreases items.len(),
{
    if i == items.len() {
        assert(items.take(i) =~= items);
    } else {
        assert(items.drop_last().take(i) =~= items.take(i));
        lemma_dec_pairs_prefix(items.drop_last(), i);
    }
}

proof fn lemma_dec_hashes_prefix(items: Seq<ItemModel>, i: int)
    requires
        0 <= i <= items.len(),
        dec_hashes(items.take(i)) is Err,
    ensures
        dec_hashes(items) == dec_hashes(items.take(i)),
    decreases items.len(),
{
    if i == items.len() {
        assert(items.take(i) =~= items);
    } else {
        assert(items.drop_last().take(i) =~= items.take(i));
        lemma_dec_hashes_prefix(items.drop_last(), i);
    }
}

proof fn lemma_dec_bodies_prefix(items: Seq<ItemModel>, i: int)
    requires
        0 <= i <= items.len(),
        dec_bodies(items.take(i)) is Err,
    ensures
        dec_bodies(items) == dec_bodies(items.take(i)),
    decreases items.len(),
{
    if i == items.len() {
        assert(items.take(i) =~= items);
    } else {
        assert(items.drop_last().take(i) =~= items.take(i));
        lemma_dec_bodies_prefix(items.drop_last(), i);
    }
}

// ---------------------------------------------------------------------------
// Executable record decoders.
// ---------------------------------------------------------------------------

fn decode_status(items: &Vec<RlpItem>) -> (r: Result<ETHMessage, DecodeError>)
    ensures
        r matches Ok(m) ==> dec_status(models_of(items@)) == Ok::<MsgModel, DecodeError>(m@),
        r matches Err(e) ==> dec_status(models_of(items@)) == Err::<MsgModel, DecodeError>(e),
{
    let f0 = match get_field(items, 0) {
        Ok(f) => f,
        Err(e) => return Err(e),
    };
    let protocol_version = match take_u64(f0) {
        Ok(v) => v,
        Err(e) => return Err(e),
    };
    let f1 = match get_field(items, 1) {
        Ok(f) => f,
        Err(e) => return Err(e),
    };
    let network_id = match take_u64(f1) {
        Ok(v) => v,
        Err(e) => return Err(e),
    };
    let f2 = match get_field(items, 2) {
        Ok(f) => f,
        Err(e) => return Err(e),
    };
    let total_difficulty = match take_num(f2) {
        Ok(v) => v,
        Err(e) => return Err(e),
    };
    let f3 = match get_field(items, 3) {
        Ok(f) => f,
        Err(e) => return Err(e),
    };
    let best_hash = match take_hash(f3) {
        Ok(v) => v,
        Err(e) => return Err(e),
    };
    let f4 = match get_field(items, 4) {
        Ok(f) => f,
        Err(e) => return Err(e),
    };
    let genesis_hash = match take_hash(f4) {
        Ok(v) => v,
        Err(e) => return Err(e),
    };
    Ok(ETHMessage::Status {
        protocol_version,
        network_id,
        total_difficulty,
        best_hash,
        genesis_hash,
    })
}

fn decode_get_headers(items: &Vec<RlpItem>) -> (r: Result<ETHMessage, DecodeError>)
    ensures
        r matches Ok(m) ==> dec_get_headers(models_of(items@)) == Ok::<MsgModel, DecodeError>(m@),
        r matches Err(e) ==> dec_get_headers(models_of(items@)) == Err::<MsgModel, DecodeError>(e),
{
    let f3 = match get_field(items, 3) {
        Ok(f) => f,
        Err(e) => return Err(e),
    };
    let reverse = match take_flag(f3) {
        Ok(v) => v,
        Err(e) => return Err(e),
    };
    // Position 3 exists, so position 0 does too.
    let f0 = match get_field(items, 0) {
        Ok(f) => f,
        Err(e) => return Err(e),
    };
    let by_hash = match f0 {
        RlpItem::Str(b) => b.len() == 32,
        RlpItem::List(_) => false,
    };
    assert(by_hash == first_is_hash(models_of(items@)));
    let f1 = match get_field(items, 1) {
        Ok(f) => f,
        Err(e) => return Err(e),
    };
    let f2 = match get_field(items, 2) {
        Ok(f) => f,
        Err(e) => return Err(e),
    };
    if by_hash {
        let hash = match take_hash(f0) {
            Ok(v) => v,
            Err(e) => return Err(e),
        };
        let max_headers = match take_u64(f1) {
            Ok(v) => v,
            Err(e) => return Err(e),
        };
        let skip = match take_u64(f2) {
            Ok(v) => v,
            Err(e) => return Err(e),
        };
        Ok(ETHMessage::GetBlockHeadersByHash { hash, max_headers, skip, reverse })
    } else {
        let number = match take_num(f0) {
            Ok(v) => v,
            Err(e) => return Err(e),
        };
        let max_headers = match take_u64(f1) {
            Ok(v) => v,
            Err(e) => return Err(e),
        };
        let skip = match take_u64(f2) {
            Ok(v) => v,
            Err(e) => return Err(e),
        };
        Ok(ETHMessage::GetBlockHeadersByNumber { number, max_headers, skip, reverse })
    }
}

fn decode_new_block(items: &Vec<RlpItem>) -> (r: Result<ETHMessage, DecodeError>)
    ensures
        r matches Ok(m) ==> dec_new_block(models_of(items@)) == Ok::<MsgModel, DecodeError>(m@),
        r matches Err(e) ==> dec_new_block(models_of(items@)) == Err::<MsgModel, DecodeError>(e),
{
    let f0 = match get_field(items, 0) {
        Ok(f) => f,
        Err(e) => return Err(e),
    };
    let block = f0.clone_item();
    let f1 = match get_field(items, 1) {
        Ok(f) => f,
        Err(e) => return Err(e),
    };
    let total_difficulty = match take_num(f1) {
        Ok(v) => v,
        Err(e) => return Err(e),
    };
    Ok(ETHMessage::NewBlock { block, total_difficulty })
}

fn decode_pairs(items: &Vec<RlpItem>) -> (r: Result<Vec<(Vec<u8>, Vec<u8>)>, DecodeError>)
    ensures
        r matches Ok(v) ==> dec_pairs(models_of(items@)) == Ok::<
            Seq<(Seq<u8>, Seq<u8>)>,
            DecodeError,
        >(pairs_view(v@)),
        r matches Err(e) ==> dec_pairs(models_of(items@)) == Err::<
            Seq<(Seq<u8>, Seq<u8>)>,
            DecodeError,
        >(e),
{
    let ghost s = models_of(items@);
    proof {
        lemma_models_of(items@);
    }
    let mut acc: Vec<(Vec<u8>, Vec<u8>)> = Vec::new();
    let mut i: usize = 0;
    proof {
        assert(s.take(0) =~= Seq::<ItemModel>::empty());
        assert(pairs_view(acc@) =~= Seq::<(Seq<u8>, Seq<u8>)>::empty());
    }
    while i < items.len()
        invariant
            i <= items@.len(),
            s == models_of(items@),
            s.len() == items@.len(),
            forall|j: int| 0 <= j < items@.len() ==> s[j] == #[trigger] items@[j]@,
            dec_pairs(s.take(i as int)) == Ok::<Seq<(Seq<u8>, Seq<u8>)>, DecodeError>(
                pairs_view(acc@),
            ),
        decreases items@.len() - i,
    {
        proof {
            assert(s.take(i + 1).drop_last() =~= s.take(i as int));
            assert(s.take(i + 1).last() == s[i as int]);
        }
        match take_pair(&items[i]) {
            Ok(p) => {
                proof {
                    assert(pairs_view(acc@.push(p)) =~= pairs_view(acc@).push((p.0@, p.1@)));
                }
                acc.push(p);
            },
            Err(e) => {
                proof {
                    lemma_dec_pairs_prefix(s, i + 1);
                }
                return Err(e);
            },
        }
        i = i + 1;
    }
    proof {
        assert(s.take(items@.len() as int) =~= s);
    }
    Ok(acc)
}

fn decode_hashes(items: &Vec<RlpItem>) -> (r: Result<Vec<Vec<u8>>, DecodeError>)
    ensures
        r matches Ok(v) ==> dec_hashes(models_of(items@)) == Ok::<Seq<Seq<u8>>, DecodeError>(
            bytes_view(v@),
        ),
        r matches Err(e) ==> dec_hashes(models_of(items@)) == Err::<Seq<Seq<u8>>, DecodeError>(e),
{
    let ghost s = models_of(items@);
    proof {
        lemma_models_of(items@);
    }
    let mut acc: Vec<Vec<u8>> = Vec::new();
    let mut i: usize = 0;
    proof {
        assert(s.take(0) =~= Seq::<ItemModel>::empty());
        assert(bytes_view(acc@) =~= Seq::<Seq<u8>>::empty());
    }
    while i < items.len()
        invariant
            i <= items@.len(),
            s == models_of(items@),
            s.len() == items@.len(),
            forall|j: int| 0 <= j < items@.len() ==> s[j] == #[trigger] items@[j]@,
            dec_hashes(s.take(i as int)) == Ok::<Seq<Seq<u8>>, DecodeError>(bytes_view(acc@)),
        decreases items@.len() - i,
    {
        proof {
            assert(s.take(i + 1).drop_last() =~= s.take(i as int));
            assert(s.take(i + 1).last() == s[i as int]);
        }
        match take_hash(&items[i]) {
            Ok(h) => {
                proof {
                    assert(bytes_view(acc@.push(h)) =~= bytes_view(acc@).push(h@));
                }
                acc.push(h);
            },
            Err(e) => {
                proof {
                    lemma_dec_hashes_prefix(s, i + 1);
                }
                return Err(e);
            },
        }
        i = i + 1;
    }
    proof {
        assert(s.take(items@.len() as int) =~= s);
    }
    Ok(acc)
}

fn decode_bodies(items: &Vec<RlpItem>) -> (r: Result<
    Vec<(Vec<RlpItem>, Vec<RlpItem>)>,
    DecodeError,
>)
    ensures
        r matches Ok(v) ==> dec_bodies(models_of(items@)) == Ok::<
            Seq<(Seq<ItemModel>, Seq<ItemModel>)>,
            DecodeError,
        >(bodies_view(v@)),
        r matches Err(e) ==> dec_bodies(models_of(items@)) == Err::<
            Seq<(Seq<ItemModel>, Seq<ItemModel>)>,
            DecodeError,
        >(e),
{
    let ghost s = models_of(items@);
    proof {
        lemma_models_of(items@);
    }
    let mut acc: Vec<(Vec<RlpItem>, Vec<RlpItem>)> = Vec::new();
    let mut i: usize = 0;
    proof {
        assert(s.take(0) =~= Seq::<ItemModel>::empty());
        assert(bodies_view(acc@) =~= Seq::<(Seq<ItemModel>, Seq<ItemModel>)>::empty());
    }
    while i < items.len()
        invariant
            i <= items@.len(),
            s == models_of(items@),
            s.len() == items@.len(),
            forall|j: int| 0 <= j < items@.len() ==> s[j] == #[trigger] items@[j]@,
            dec_bodies(s.take(i as int)) == Ok::<
                Seq<(Seq<ItemModel>, Seq<ItemModel>)>,
                DecodeError,
            >(bodies_view(acc@)),
        decreases items@.len() - i,
    {
        proof {
            assert(s.take(i + 1).drop_last() =~= s.take(i as int));
            assert(s.take(i + 1).last() == s[i as int]);
        }
        match take_body(&items[i]) {
            Ok(b) => {
                proof {
                    assert(bodies_view(acc@.push(b)) =~= bodies_view(acc@).push(
                        (models_of(b.0@), models_of(b.1@)),
                    ));
                }
                acc.push(b);
            },
            Err(e) => {
                proof {
                    lemma_dec_bodies_prefix(s, i + 1);
                }
                return Err(e);
            },
        }
        i = i + 1;
    }
    proof {
        assert(s.take(items@.len() as int) =~= s);
    }
    Ok(acc)
}

impl ETHMessage {
    /// Decode a wire record into a message using the given message id.
    ///
    /// Identifiers outside 0..=7 always yield `Unknown`; recognized
    /// identifiers decode exactly as `spec_decode` says, malformed records
    /// failing with the error it names.
    pub fn decode_item(item: &RlpItem, id: usize) -> (r: Result<ETHMessage, DecodeError>)
        ensures
            r matches Ok(m) ==> spec_decode(item@, id) == Ok::<MsgModel, DecodeError>(m@),
            r matches Err(e) ==> spec_decode(item@, id) == Err::<MsgModel, DecodeError>(e),
    {
        if id > 7 {
            return Ok(ETHMessage::Unknown);
        }
        match item {
            RlpItem::Str(_) => Err(DecodeError::MalformedList),
            RlpItem::List(items) => {
                if id == 0 {
                    decode_status(items)
                } else if id == 1 {
                    match decode_pairs(items) {
                        Ok(v) => Ok(ETHMessage::NewBlockHashes(v)),
                        Err(e) => Err(e),
                    }
                } else if id == 2 {
                    Ok(ETHMessage::Transactions(clone_items(items)))
                } else if id == 3 {
                    decode_get_headers(items)
                } else if id == 4 {
                    Ok(ETHMessage::BlockHeaders(clone_items(items)))
                } else if id == 5 {
                    match decode_hashes(items) {
                        Ok(v) => Ok(ETHMessage::GetBlockBodies(v)),
                        Err(e) => Err(e),
                    }
                } else if id == 6 {
                    match decode_bodies(items) {
                        Ok(v) => Ok(ETHMessage::BlockBodies(v)),
                        Err(e) => Err(e),
                    }
                } else {
                    decode_new_block(items)
                }
            },
        }
    }
}

// ---------------------------------------------------------------------------
// Executable encoder.
// ---------------------------------------------------------------------------

/// Wire bytes of the boolean `reverse` flag.
fn encode_flag(reverse: bool) -> (r: Vec<u8>)
    ensures
        r@ == enc_flag(reverse),
{
    let mut r: Vec<u8> = Vec::new();
    if reverse {
        r.push(1);
    }
    proof {
        assert(r@ =~= enc_flag(reverse));
    }
    r
}

impl ETHMessage {
    /// Encode a message into its wire record: the exact structural inverse
    /// of decoding with the same identifier.
    pub fn encode(&self) -> (r: RlpItem)
        ensures
            r@ == spec_encode(self@),
    {
        match self {
            ETHMessage::Status {
                protocol_version,
                network_id,
                total_difficulty,
                best_hash,
                genesis_hash,
            } => {
                let mut v: Vec<RlpItem> = Vec::new();
                v.push(RlpItem::Str(u64_to_be(*protocol_version)));
                v.push(RlpItem::Str(u64_to_be(*network_id)));
                v.push(RlpItem::Str(clone_bytes(total_difficulty)));
                v.push(RlpItem::Str(clone_bytes(best_hash)));
                v.push(RlpItem::Str(clone_bytes(genesis_hash)));
                proof {
                    lemma_models_of(v@);
                    assert(models_of(v@) =~= seq![
                        ItemModel::Scalar(be(*protocol_version as nat)),
                        ItemModel::Scalar(be(*network_id as nat)),
                        ItemModel::Scalar(total_difficulty@),
                        ItemModel::Scalar(best_hash@),
                        ItemModel::Scalar(genesis_hash@),
                    ]);
                }
                RlpItem::List(v)
            },
            ETHMessage::NewBlockHashes(ps) => {
                let mut v: Vec<RlpItem> = Vec::new();
                let mut i: usize = 0;
                while i < ps.len()
                    invariant
                        i <= ps@.len(),
                        v@.len() == i,
                        forall|j: int| 0 <= j < i ==> (#[trigger] v@[j])@ == ItemModel::List(
                            seq![
                                ItemModel::Scalar(ps@[j].0@),
                                ItemModel::Scalar(ps@[j].1@),
                            ],
                        ),
                    decreases ps@.len() - i,
                {
                    let p = &ps[i];
                    let mut pv: Vec<RlpItem> = Vec::new();
                    pv.push(RlpItem::Str(clone_bytes(&p.0)));
                    pv.push(RlpItem::Str(clone_bytes(&p.1)));
                    proof {
                        lemma_models_of(pv@);
                        assert(models_of(pv@) =~= seq![
                            ItemModel::Scalar(ps@[i as int].0@),
                            ItemModel::Scalar(ps@[i as int].1@),
                        ]);
                    }
                    v.push(RlpItem::List(pv));
                    i = i + 1;
                }
                proof {
                    lemma_models_of(v@);
                    assert(self@ matches MsgModel::NewBlockHashes(psm) && psm == pairs_view(ps@));
                    assert(models_of(v@) =~= Seq::new(
                        pairs_view(ps@).len(),
                        |k: int| ItemModel::List(
                            seq![
                                ItemModel::Scalar(pairs_view(ps@)[k].0),
                                ItemModel::Scalar(pairs_view(ps@)[k].1),
                            ],
                        ),
                    ));
                }
                RlpItem::List(v)
            },
            ETHMessage::Transactions(its) => RlpItem::List(clone_items(its)),
            ETHMessage::GetBlockHeadersByNumber { number, max_headers, skip, reverse } => {
                let mut v: Vec<RlpItem> = Vec::new();
                v.push(RlpItem::Str(clone_bytes(number)));
                v.push(RlpItem::Str(u64_to_be(*max_headers)));
                v.push(RlpItem::Str(u64_to_be(*skip)));
                v.push(RlpItem::Str(encode_flag(*reverse)));
                proof {
                    lemma_models_of(v@);
                    assert(models_of(v@) =~= seq![
                        ItemModel::Scalar(number@),
                        ItemModel::Scalar(be(*max_headers as nat)),
                        ItemModel::Scalar(be(*skip as nat)),
                        ItemModel::Scalar(enc_flag(*reverse)),
                    ]);
                }
                RlpItem::List(v)
            },
            ETHMessage::GetBlockHeadersByHash { hash, max_headers, skip, reverse } => {
                let mut v: Vec<RlpItem> = Vec::new();
                v.push(RlpItem::Str(clone_bytes(hash)));
                v.push(RlpItem::Str(u64_to_be(*max_headers)));
                v.push(RlpItem::Str(u64_to_be(*skip)));
                v.push(RlpItem::Str(encode_flag(*reverse)));
                proof {
                    lemma_models_of(v@);
                    assert(models_of(v@) =~= seq![
                        ItemModel::Scalar(hash@),
                        ItemModel::Scalar(be(*max_headers as nat)),
                        ItemModel::Scalar(be(*skip as nat)),
                        ItemModel::Scalar(enc_flag(*reverse)),
                    ]);
                }
                RlpItem::List(v)
            },
            ETHMessage::BlockHeaders(its) => RlpItem::List(clone_items(its)),
            ETHMessage::GetBlockBodies(hs) => {
                let mut v: Vec<RlpItem> = Vec::new();
                let mut i: usize = 0;
                while i < hs.len()
                    invariant
                        i <= hs@.len(),
                        v@.len() == i,
                        forall|j: int| 0 <= j < i ==> (#[trigger] v@[j])@ == ItemModel::Scalar(
                            hs@[j]@,
                        ),
                    decreases hs@.len() - i,
                {
                    v.push(RlpItem::Str(clone_bytes(&hs[i])));
                    i = i + 1;
                }
                proof {
                    lemma_models_of(v@);
                    assert(models_of(v@) =~= Seq::new(
                        bytes_view(hs@).len(),
                        |k: int| ItemModel::Scalar(bytes_view(hs@)[k]),
                    ));
                }
                RlpItem::List(v)
            },
            ETHMessage::BlockBodies(bs) => {
                let mut v: Vec<RlpItem> = Vec::new();
                let mut i: usize = 0;
                while i < bs.len()
                    invariant
                        i <= bs@.len(),
                        v@.len() == i,
                        forall|j: int| 0 <= j < i ==> (#[trigger] v@[j])@ == ItemModel::List(
                            seq![
                                ItemModel::List(models_of(bs@[j].0@)),
                                ItemModel::List(models_of(bs@[j].1@)),
                            ],
                        ),
                    decreases bs@.len() - i,
                {
                    let b = &bs[i];
                    let mut bv: Vec<RlpItem> = Vec::new();
                    bv.push(RlpItem::List(clone_items(&b.0)));
                    bv.push(RlpItem::List(clone_items(&b.1)));
                    proof {
                        lemma_models_of(bv@);
                        assert(models_of(bv@) =~= seq![
                            ItemModel::List(models_of(bs@[i as int].0@)),
                            ItemModel::List(models_of(bs@[i as int].1@)),
                        ]);
                    }
                    v.push(RlpItem::List(bv));
                    i = i + 1;
                }
                proof {
                    lemma_models_of(v@);
                    assert(models_of(v@) =~= Seq::new(
                        bodies_view(bs@).len(),
                        |k: int| ItemModel::List(
                            seq![
                                ItemModel::List(bodies_view(bs@)[k].0),
                                ItemModel::List(bodies_view(bs@)[k].1),
                            ],
                        ),
                    ));
                }
                RlpItem::List(v)
            },
            ETHMessage::NewBlock { block, total_difficulty } => {
                let mut v: Vec<RlpItem> = Vec::new();
                v.push(block.clone_item());
                v.push(RlpItem::Str(clone_bytes(total_difficulty)));
                proof {
                    lemma_models_of(v@);
                    assert(models_of(v@) =~= seq![
                        block@,
                        ItemModel::Scalar(total_difficulty@),
                    ]);
                }
                RlpItem::List(v)
            },
            ETHMessage::Unknown => {
                let v: Vec<RlpItem> = Vec::new();
                proof {
                    assert(models_of(v@) =~= Seq::<ItemModel>::empty());
                }
                RlpItem::List(v)
            },
        }
    }
}

} // verus!
