//! Laws of the codec, stated over the mathematical models and proved once
//! for all records and messages.

use vstd::prelude::*;

use crate::codec::{
    dec_bodies, dec_flag, dec_hashes, dec_pairs, enc_bodies, enc_flag, enc_hashes, enc_pairs,
    first_is_hash, spec_decode, spec_encode,
};
use crate::item::ItemModel;
use crate::message::{hash_ok, num_ok, spec_id, DecodeError, MsgModel};
use crate::numbers::{
    be, be_val, lemma_be_canonical, lemma_be_len, lemma_be_val_of_be, lemma_pow256_8,
};
use crate::wire::{lemma_parse_ser, ser, ser_ok, spec_decode_bytes};

verus! {

/// A canonical big-endian scalar of a 64-bit value decodes back to it.
proof fn lemma_u64_field_round(n: u64)
    ensures
        crate::codec::dec_u64(ItemModel::Scalar(be(n as nat))) == Ok::<u64, DecodeError>(n),
{
    lemma_pow256_8();
    lemma_be_len(n as nat, 8);
    lemma_be_canonical(n as nat);
    lemma_be_val_of_be(n as nat);
}

/// Encoded new-block-hashes entries decode back to the same pairs.
proof fn lemma_pairs_round(ps: Seq<(Seq<u8>, Seq<u8>)>)
    requires
        forall|i: int| 0 <= i < ps.len() ==> hash_ok(#[trigger] ps[i].0) && num_ok(ps[i].1),
    ensures
        dec_pairs(enc_pairs(ps)) == Ok::<Seq<(Seq<u8>, Seq<u8>)>, DecodeError>(ps),
    decreases ps.len(),
{
    if ps.len() == 0 {
        assert(enc_pairs(ps) =~= Seq::<ItemModel>::empty());
        assert(ps =~= Seq::<(Seq<u8>, Seq<u8>)>::empty());
    } else {
        assert(enc_pairs(ps).drop_last() =~= enc_pairs(ps.drop_last()));
        lemma_pairs_round(ps.drop_last());
        let lp = ps.last();
        assert(enc_pairs(ps).last() == ItemModel::List(
            seq![ItemModel::Scalar(lp.0), ItemModel::Scalar(lp.1)],
        ));
        assert((lp.0, lp.1) == lp);
        assert(ps.drop_last().push(lp) =~= ps);
    }
}

/// Encoded get-block-bodies entries decode back to the same hashes.
proof fn lemma_hashes_round(hs: Seq<Seq<u8>>)
    requires
        forall|i: int| 0 <= i < hs.len() ==> hash_ok(#[trigger] hs[i]),
    ensures
        dec_hashes(enc_hashes(hs)) == Ok::<Seq<Seq<u8>>, DecodeError>(hs),
    decreases hs.len(),
{
    if hs.len() == 0 {
        assert(enc_hashes(hs) =~= Seq::<ItemModel>::empty());
        assert(hs =~= Seq::<Seq<u8>>::empty());
    } else {
        assert(enc_hashes(hs).drop_last() =~= enc_hashes(hs.drop_last()));
        lemma_hashes_round(hs.drop_last());
        assert(hs.drop_last().push(hs.last()) =~= hs);
    }
}

/// Encoded block-body entries decode back to the same pairs of sub-lists.
proof fn lemma_bodies_round(bs: Seq<(Seq<ItemModel>, Seq<ItemModel>)>)
    ensures
        dec_bodies(enc_bodies(bs)) == Ok::<Seq<(Seq<ItemModel>, Seq<ItemModel>)>, DecodeError>(bs),
    decreases bs.len(),
{
    if bs.len() == 0 {
        assert(enc_bodies(bs) =~= Seq::<ItemModel>::empty());
        assert(bs =~= Seq::<(Seq<ItemModel>, Seq<ItemModel>)>::empty());
    } else {
        assert(enc_bodies(bs).drop_last() =~= enc_bodies(bs.drop_last()));
        lemma_bodies_round(bs.drop_last());
        let lb = bs.last();
        assert(enc_bodies(bs).last() == ItemModel::List(
            seq![ItemModel::List(lb.0), ItemModel::List(lb.1)],
        ));
        assert((lb.0, lb.1) == lb);
        assert(bs.drop_last().push(lb) =~= bs);
    }
}

/// Round trip: decoding the encoding of any well-formed message with that
/// message's own identifier yields the message back.
///
/// The one inherited exception is a by-number header request whose block
/// number happens to take exactly 32 bytes: the wire format cannot tell such
/// a number from a hash, and it decodes as the by-hash variant.
pub proof fn lemma_round_trip(m: MsgModel)
    requires
        m.wf(),
        m matches MsgModel::GetBlockHeadersByNumber { number, .. } ==> number.len() != 32,
    ensures
        spec_decode(spec_encode(m), spec_id(m)) == Ok::<MsgModel, DecodeError>(m),
{
    match m {
        MsgModel::Status { protocol_version, network_id, .. } => {
            lemma_u64_field_round(protocol_version);
            lemma_u64_field_round(network_id);
        },
        MsgModel::NewBlockHashes(ps) => {
            lemma_pairs_round(ps);
        },
        MsgModel::Transactions(_) => {},
        MsgModel::GetBlockHeadersByNumber { max_headers, skip, .. } => {
            lemma_u64_field_round(max_headers);
            lemma_u64_field_round(skip);
        },
        MsgModel::GetBlockHeadersByHash { max_headers, skip, .. } => {
            lemma_u64_field_round(max_headers);
            lemma_u64_field_round(skip);
        },
        MsgModel::BlockHeaders(_) => {},
        MsgModel::GetBlockBodies(hs) => {
            lemma_hashes_round(hs);
        },
        MsgModel::BlockBodies(bs) => {
            lemma_bodies_round(bs);
        },
        MsgModel::NewBlock { .. } => {},
        MsgModel::Unknown => {},
    }
}

/// Disambiguation: a decoded identifier-3 record is always exactly one of
/// the two header-request variants, and it is the by-hash variant precisely
/// when the record's first item is a scalar of exactly 32 raw bytes —
/// whatever the other fields hold.
pub proof fn lemma_disambiguation(t: ItemModel, m: MsgModel)
    requires
        spec_decode(t, 3) == Ok::<MsgModel, DecodeError>(m),
    ensures
        m is GetBlockHeadersByHash || m is GetBlockHeadersByNumber,
        m is GetBlockHeadersByHash <==> (t matches ItemModel::List(items) && first_is_hash(
            items,
        )),
{
}

/// Unknown identifier: any record decodes to `Unknown` under any identifier
/// outside 0..=7, with no decode error, whatever the record holds.
pub proof fn lemma_unknown_id(t: ItemModel, id: usize)
    requires
        id > 7,
    ensures
        spec_decode(t, id) == Ok::<MsgModel, DecodeError>(MsgModel::Unknown),
{
}

/// The boolean `reverse` flag encodes to the scalar 1 iff it is true and to
/// the scalar 0 (the empty canonical byte string) iff it is false; decoding
/// accepts any canonical 32-bit scalar and yields true exactly for nonzero
/// values.
pub proof fn lemma_reverse_flag(reverse: bool, b: Seq<u8>)
    ensures
        enc_flag(reverse) == seq![1u8] <==> reverse,
        be_val(enc_flag(reverse)) == 0 <==> !reverse,
        dec_flag(ItemModel::Scalar(b)) matches Ok(r) ==> (r <==> be_val(b) != 0),
{
    assert(be_val(seq![1u8]) == 1) by {
        reveal_with_fuel(be_val, 3);
        assert(seq![1u8].drop_last() =~= Seq::<u8>::empty());
        assert(seq![1u8].last() == 1u8);
    }
    if !reverse {
        assert(be_val(enc_flag(reverse)) == 0);
    } else {
        assert(enc_flag(reverse) == seq![1u8]);
    }
    if dec_flag(ItemModel::Scalar(b)) is Ok {
        if b.len() > 0 {
            lemma_canonical_positive(b);
        }
    }
}

/// A nonempty canonical big-endian byte string holds a nonzero value.
proof fn lemma_canonical_positive(b: Seq<u8>)
    requires
        b.len() > 0,
        b[0] != 0,
    ensures
        be_val(b) > 0,
    decreases b.len(),
{
    if b.len() == 1 {
        assert(b.drop_last() =~= Seq::<u8>::empty());
    } else {
        assert(b.drop_last()[0] == b[0]);
        lemma_canonical_positive(b.drop_last());
    }
}

/// Empty-list edge cases: `Unknown` encodes to the empty list record, and
/// the empty list record decodes under identifiers 1 and 5 to the empty
/// message of that identifier, with no error.
pub proof fn lemma_empty_record()
    ensures
        spec_encode(MsgModel::Unknown) == ItemModel::List(Seq::<ItemModel>::empty()),
        spec_decode(ItemModel::List(Seq::<ItemModel>::empty()), 1) == Ok::<
            MsgModel,
            DecodeError,
        >(MsgModel::NewBlockHashes(Seq::<(Seq<u8>, Seq<u8>)>::empty())),
        spec_decode(ItemModel::List(Seq::<ItemModel>::empty()), 5) == Ok::<
            MsgModel,
            DecodeError,
        >(MsgModel::GetBlockBodies(Seq::<Seq<u8>>::empty())),
        spec_decode(spec_encode(MsgModel::NewBlockHashes(Seq::<(Seq<u8>, Seq<u8>)>::empty())), 1)
            == Ok::<MsgModel, DecodeError>(
            MsgModel::NewBlockHashes(Seq::<(Seq<u8>, Seq<u8>)>::empty()),
        ),
{
    lemma_pairs_round(Seq::<(Seq<u8>, Seq<u8>)>::empty());
    assert(enc_pairs(Seq::<(Seq<u8>, Seq<u8>)>::empty()) =~= Seq::<ItemModel>::empty());
}

/// Round trip at the byte level: the wire bytes of any well-formed message
/// decode, under that message's own identifier, back to the same message.
/// `ser_ok` asks only that every length the encoding writes fit in eight
/// big-endian bytes, which holds of every message the executable encoder can
/// be given; the by-number exception is the same as in `lemma_round_trip`.
pub proof fn lemma_round_trip_bytes(m: MsgModel)
    requires
        m.wf(),
        m matches MsgModel::GetBlockHeadersByNumber { number, .. } ==> number.len() != 32,
        ser_ok(crate::codec::spec_encode(m)),
    ensures
        spec_decode_bytes(ser(crate::codec::spec_encode(m)), spec_id(m)) == Ok::<
            MsgModel,
            DecodeError,
        >(m),
{
    let t = crate::codec::spec_encode(m);
    lemma_parse_ser(t, Seq::<u8>::empty());
    assert(ser(t) + Seq::<u8>::empty() =~= ser(t));
    lemma_round_trip(m);
}

} // verus!
