//! The recursive length-prefixed wire grammar.
//!
//! A scalar of one byte below 0x80 stands for itself; longer byte strings
//! and lists carry a length prefix, with lengths above 55 written as a
//! minimal big-endian integer after a length-of-length byte. The parser is
//! total over arbitrary untrusted bytes: malformed input yields an error,
//! never a panic.

use vstd::prelude::*;

use crate::codec::{spec_decode, spec_encode};
use crate::item::{models_of, ItemModel, RlpItem};
use crate::message::{DecodeError, ETHMessage, MsgModel};
use crate::numbers::{be, be_val, lemma_be_len, lemma_pow256_8, lemma_pow256_le, u64_to_be};

verus! {

/// The exclusive upper bound of lengths the wire format can carry here:
/// length fields are at most eight big-endian bytes.
pub open spec fn len_bound() -> nat {
    0x1_0000_0000_0000_0000
}

// ---------------------------------------------------------------------------
// Serializer.
// ---------------------------------------------------------------------------

/// Wire bytes of one byte string.
pub open spec fn ser_scalar(b: Seq<u8>) -> Seq<u8> {
    if b.len() == 1 && b[0] < 0x80 {
        b
    } else if b.len() <= 55 {
        seq![(0x80 + b.len()) as u8] + b
    } else {
        seq![(0xb7 + be(b.len()).len()) as u8] + be(b.len()) + b
    }
}

/// Wire bytes of a list whose entries serialize to `payload`.
pub open spec fn ser_list_payload(payload: Seq<u8>) -> Seq<u8> {
    if payload.len() <= 55 {
        seq![(0xc0 + payload.len()) as u8] + payload
    } else {
        seq![(0xf7 + be(payload.len()).len()) as u8] + be(payload.len()) + payload
    }
}

/// Wire bytes of one item.
pub open spec fn ser(t: ItemModel) -> Seq<u8>
    decreases t, 1int,
{
    match t {
        ItemModel::Scalar(b) => ser_scalar(b),
        ItemModel::List(items) => ser_list_payload(ser_items(items)),
    }
}

/// Concatenated wire bytes of a sequence of items.
pub open spec fn ser_items(items: Seq<ItemModel>) -> Seq<u8>
    decreases items, 0int,
{
    if items.len() == 0 {
        Seq::empty()
    } else {
        ser(items.first()) + ser_items(items.drop_first())
    }
}

/// Every length that the serialization of `t` must write fits in eight
/// big-endian bytes.
pub open spec fn ser_ok(t: ItemModel) -> bool
    decreases t, 1int,
{
    match t {
        ItemModel::Scalar(b) => b.len() < len_bound(),
        ItemModel::List(items) => ser_items(items).len() < len_bound() && ser_ok_items(items),
    }
}

/// `ser_ok` of every item of a sequence.
pub open spec fn ser_ok_items(items: Seq<ItemModel>) -> bool
    decreases items, 0int,
{
    if items.len() == 0 {
        true
    } else {
        ser_ok(items.first()) && ser_ok_items(items.drop_first())
    }
}

// ---------------------------------------------------------------------------
// Parser: one item from the front of the input, with the bytes it used.
// ---------------------------------------------------------------------------

/// Parse one item from the front of `raw`: the item and the number of bytes
/// it spans, or nothing if the input is malformed or truncated.
pub open spec fn parse(raw: Seq<u8>) -> Option<(ItemModel, nat)>
    decreases raw.len(), 0int,
{
    if raw.len() == 0 {
        None
    } else {
        let b0 = raw[0];
        if b0 < 0x80 {
            Some((ItemModel::Scalar(seq![b0]), 1))
        } else if b0 <= 0xb7 {
            let l = (b0 - 0x80) as nat;
            if raw.len() < 1 + l {
                None
            } else {
                Some((ItemModel::Scalar(raw.subrange(1, 1 + l as int)), 1 + l))
            }
        } else if b0 <= 0xbf {
            let ll = (b0 - 0xb7) as nat;
            if raw.len() < 1 + ll {
                None
            } else if raw[1] == 0 {
                None
            } else {
                let l = be_val(raw.subrange(1, 1 + ll as int));
                if raw.len() < 1 + ll + l {
                    None
                } else {
                    Some((ItemModel::Scalar(raw.subrange(1 + ll as int, 1 + ll as int + l as int)), 1 + ll + l))
                }
            }
        } else if b0 <= 0xf7 {
            let l = (b0 - 0xc0) as nat;
            if raw.len() < 1 + l {
                None
            } else {
                match parse_items(raw.subrange(1, 1 + l as int)) {
                    None => None,
                    Some(items) => Some((ItemModel::List(items), 1 + l)),
                }
            }
        } else {
            let ll = (b0 - 0xf7) as nat;
            if raw.len() < 1 + ll {
                None
            } else if raw[1] == 0 {
                None
            } else {
                let l = be_val(raw.subrange(1, 1 + ll as int));
                if raw.len() < 1 + ll + l {
                    None
                } else {
                    match parse_items(raw.subrange(1 + ll as int, 1 + ll as int + l as int)) {
                        None => None,
                        Some(items) => Some((ItemModel::List(items), 1 + ll + l)),
                    }
                }
            }
        }
    }
}

/// Parse a list payload as a sequence of items that spans it exactly.
pub open spec fn parse_items(payload: Seq<u8>) -> Option<Seq<ItemModel>>
    decreases payload.len(), 1int,
{
    if payload.len() == 0 {
        Some(Seq::empty())
    } else {
        match parse(payload) {
            None => None,
            Some((t, used)) => if used < 1 || used > payload.len() {
                None
            } else {
                match parse_items(payload.skip(used as int)) {
                    None => None,
                    Some(rest) => Some(seq![t] + rest),
                }
            },
        }
    }
}

// ---------------------------------------------------------------------------
// Executable serializer.
// ---------------------------------------------------------------------------

/// Append a copy of `src` to `dst`.
fn extend_bytes(dst: &mut Vec<u8>, src: &Vec<u8>)
    ensures
        final(dst)@ == old(dst)@ + src@,
{
    let mut i: usize = 0;
    while i < src.len()
        invariant
            i <= src@.len(),
            dst@ == old(dst)@ + src@.take(i as int),
        decreases src@.len() - i,
    {
        proof {
            assert(old(dst)@ + src@.take(i + 1) =~= (old(dst)@ + src@.take(i as int)).push(
                src@[i as int],
            ));
        }
        dst.push(src[i]);
        i = i + 1;
    }
    proof {
        assert(src@.take(src@.len() as int) =~= src@);
    }
}

/// Appending one item to a sequence appends its wire bytes to theirs.
proof fn lemma_ser_items_push(items: Seq<ItemModel>, t: ItemModel)
    ensures
        ser_items(items.push(t)) == ser_items(items) + ser(t),
    decreases items.len(),
{
    reveal_with_fuel(ser_items, 3);
    if items.len() == 0 {
        assert(items.push(t).first() == t);
        assert(items.push(t).drop_first() =~= Seq::<ItemModel>::empty());
        assert(ser_items(items) + ser(t) =~= ser(t));
        assert(ser(t) + Seq::<u8>::empty() =~= ser(t));
    } else {
        assert(items.push(t).first() == items.first());
        assert(items.push(t).drop_first() =~= items.drop_first().push(t));
        lemma_ser_items_push(items.drop_first(), t);
        assert(ser(items.first()) + (ser_items(items.drop_first()) + ser(t)) =~= (ser(
            items.first(),
        ) + ser_items(items.drop_first())) + ser(t));
    }
}

/// Wire bytes of one item.
pub fn serialize_item(item: &RlpItem) -> (r: Vec<u8>)
    ensures
        r@ == ser(item@),
        ser_ok(item@),
    decreases *item, 1int,
{
    match item {
        RlpItem::Str(b) => {
            proof {
                lemma_pow256_8();
            }
            if b.len() == 1 && b[0] < 0x80 {
                crate::item::clone_bytes(b)
            } else if b.len() <= 55 {
                let mut r: Vec<u8> = Vec::new();
                r.push((0x80 + b.len()) as u8);
                extend_bytes(&mut r, b);
                proof {
                    assert(r@ =~= seq![(0x80 + b@.len()) as u8] + b@);
                }
                r
            } else {
                let lb = u64_to_be(b.len() as u64);
                proof {
                    lemma_be_len(b@.len(), 8);
                }
                let mut r: Vec<u8> = Vec::new();
                r.push(0xb7 + (lb.len() as u8));
                extend_bytes(&mut r, &lb);
                extend_bytes(&mut r, b);
                proof {
                    assert(r@ =~= seq![(0xb7 + be(b@.len()).len()) as u8] + be(b@.len()) + b@);
                }
                r
            }
        },
        RlpItem::List(v) => {
            let payload = serialize_items(v);
            proof {
                lemma_pow256_8();
            }
            if payload.len() <= 55 {
                let mut r: Vec<u8> = Vec::new();
                r.push((0xc0 + payload.len()) as u8);
                extend_bytes(&mut r, &payload);
                proof {
                    assert(r@ =~= seq![(0xc0 + payload@.len()) as u8] + payload@);
                }
                r
            } else {
                let lb = u64_to_be(payload.len() as u64);
                proof {
                    lemma_be_len(payload@.len(), 8);
                }
                let mut r: Vec<u8> = Vec::new();
                r.push(0xf7 + (lb.len() as u8));
                extend_bytes(&mut r, &lb);
                extend_bytes(&mut r, &payload);
                proof {
                    assert(r@ =~= seq![(0xf7 + be(payload@.len()).len()) as u8] + be(payload@.len())
                        + payload@);
                }
                r
            }
        },
    }
}

/// Concatenated wire bytes of a sequence of items.
fn serialize_items(v: &Vec<RlpItem>) -> (r: Vec<u8>)
    ensures
        r@ == ser_items(models_of(v@)),
        ser_ok_items(models_of(v@)),
    decreases v@, 0int,
{
    proof {
        crate::item::lemma_models_of(v@);
    }
    let mut r: Vec<u8> = Vec::new();
    let mut i: usize = 0;
    while i < v.len()
        invariant
            i <= v@.len(),
            models_of(v@).len() == v@.len(),
            forall|j: int| 0 <= j < v@.len() ==> models_of(v@)[j] == #[trigger] v@[j]@,
            r@ == ser_items(models_of(v@).take(i as int)),
            ser_ok_items(models_of(v@).take(i as int)),
        decreases v@.len() - i,
    {
        proof {
            assert(decreases_to!(v@ => v@[i as int]));
        }
        let cb = serialize_item(&v[i]);
        extend_bytes(&mut r, &cb);
        proof {
            let s = models_of(v@);
            assert(s.take(i + 1) =~= s.take(i as int).push(s[i as int]));
            lemma_ser_items_push(s.take(i as int), s[i as int]);
            lemma_ser_ok_items_push(s.take(i as int), s[i as int]);
        }
        i = i + 1;
    }
    proof {
        assert(models_of(v@).take(v@.len() as int) =~= models_of(v@));
    }
    r
}

// ---------------------------------------------------------------------------
// Executable parser.
// ---------------------------------------------------------------------------

/// Copy `count` bytes of `raw` starting at `start`.
fn copy_range(raw: &[u8], start: usize, count: usize) -> (r: Vec<u8>)
    requires
        start + count <= raw@.len(),
    ensures
        r@ == raw@.subrange(start as int, start as int + count as int),
{
    let rlen = raw.len();
    let mut r: Vec<u8> = Vec::new();
    let mut j: usize = 0;
    while j < count
        invariant
            j <= count,
            start + count <= raw@.len(),
            raw@.len() == rlen,
            r@ == raw@.subrange(start as int, start as int + j as int),
        decreases count - j,
    {
        proof {
            assert(raw@.subrange(start as int, start as int + j + 1) =~= raw@.subrange(
                start as int,
                start as int + j,
            ).push(raw@[start as int + j]));
        }
        r.push(raw[start + j]);
        j = j + 1;
    }
    proof {
        assert(r@ =~= raw@.subrange(start as int, start as int + count as int));
    }
    r
}

/// Value of `count` big-endian bytes of `raw` starting at `start`.
fn be_range_val(raw: &[u8], start: usize, count: usize) -> (r: u64)
    requires
        start + count <= raw@.len(),
        count <= 8,
    ensures
        r == be_val(raw@.subrange(start as int, start as int + count as int)),
{
    let rlen = raw.len();
    let mut r: u64 = 0;
    let mut j: usize = 0;
    while j < count
        invariant
            j <= count <= 8,
            start + count <= raw@.len(),
            raw@.len() == rlen,
            r == be_val(raw@.subrange(start as int, start as int + j as int)),
            r < crate::numbers::pow256(j as nat),
        decreases count - j,
    {
        proof {
            lemma_pow256_le((j + 1) as nat, 8);
            lemma_pow256_8();
            assert(r * 256 + raw@[start as int + j] < 256 * crate::numbers::pow256(j as nat))
                by (nonlinear_arith)
                requires
                    r < crate::numbers::pow256(j as nat),
                    raw@[start as int + j] < 256,
            ;
            assert(256 * crate::numbers::pow256(j as nat) == crate::numbers::pow256((j + 1) as nat));
            assert(raw@.subrange(start as int, start as int + j + 1).drop_last() =~= raw@.subrange(
                start as int,
                start as int + j,
            ));
        }
        r = r * 256 + (raw[start + j] as u64);
        j = j + 1;
    }
    r
}

/// Parse one item of the region `raw[pos..end]`, returning the item and the
/// position just past it. Total: truncated or malformed input yields `None`.
fn parse_at(raw: &[u8], pos: usize, end: usize) -> (r: Option<(RlpItem, usize)>)
    requires
        pos <= end && end <= raw@.len(),
    ensures
        r matches Some(p) ==> pos < p.1 <= end && parse(
            raw@.subrange(pos as int, end as int),
        ) == Some::<(ItemModel, nat)>((p.0@, (p.1 - pos) as nat)),
        r is None ==> parse(raw@.subrange(pos as int, end as int)) is None,
    decreases end - pos, 0int,
{
    let ghost region = raw@.subrange(pos as int, end as int);
    if pos >= end {
        return None;
    }
    let b0 = raw[pos];
    proof {
        assert(region[0] == b0);
    }
    if b0 < 0x80 {
        let mut bytes: Vec<u8> = Vec::new();
        bytes.push(b0);
        proof {
            assert(bytes@ =~= seq![region[0]]);
        }
        Some((RlpItem::Str(bytes), pos + 1))
    } else if b0 <= 0xb7 {
        let l = (b0 - 0x80) as usize;
        if end - pos - 1 < l {
            return None;
        }
        let data = copy_range(raw, pos + 1, l);
        proof {
            assert(data@ =~= region.subrange(1, 1 + l as int));
        }
        Some((RlpItem::Str(data), pos + 1 + l))
    } else if b0 <= 0xbf {
        let ll = (b0 - 0xb7) as usize;
        if end - pos - 1 < ll {
            return None;
        }
        if raw[pos + 1] == 0 {
            proof {
                assert(region[1] == raw@[pos as int + 1]);
            }
            return None;
        }
        proof {
            assert(region[1] == raw@[pos as int + 1]);
        }
        let l64 = be_range_val(raw, pos + 1, ll);
        proof {
            assert(raw@.subrange(pos as int + 1, pos as int + 1 + ll as int) =~= region.subrange(
                1,
                1 + ll as int,
            ));
        }
        let rem = end - pos - 1 - ll;
        if (rem as u64) < l64 {
            return None;
        }
        let l = l64 as usize;
        let data = copy_range(raw, pos + 1 + ll, l);
        proof {
            assert(data@ =~= region.subrange(1 + ll as int, 1 + ll as int + l as int));
        }
        Some((RlpItem::Str(data), pos + 1 + ll + l))
    } else if b0 <= 0xf7 {
        let l = (b0 - 0xc0) as usize;
        if end - pos - 1 < l {
            return None;
        }
        match parse_span(raw, pos + 1, pos + 1 + l) {
            None => {
                proof {
                    assert(raw@.subrange(pos as int + 1, pos as int + 1 + l as int)
                        =~= region.subrange(1, 1 + l as int));
                }
                None
            },
            Some(items) => {
                proof {
                    assert(raw@.subrange(pos as int + 1, pos as int + 1 + l as int)
                        =~= region.subrange(1, 1 + l as int));
                }
                Some((RlpItem::List(items), pos + 1 + l))
            },
        }
    } else {
        let ll = (b0 - 0xf7) as usize;
        if end - pos - 1 < ll {
            return None;
        }
        if raw[pos + 1] == 0 {
            proof {
                assert(region[1] == raw@[pos as int + 1]);
            }
            return None;
        }
        proof {
            assert(region[1] == raw@[pos as int + 1]);
        }
        let l64 = be_range_val(raw, pos + 1, ll);
        proof {
            assert(raw@.subrange(pos as int + 1, pos as int + 1 + ll as int) =~= region.subrange(
                1,
                1 + ll as int,
            ));
        }
        let rem = end - pos - 1 - ll;
        if (rem as u64) < l64 {
            return None;
        }
        let l = l64 as usize;
        match parse_span(raw, pos + 1 + ll, pos + 1 + ll + l) {
            None => {
                proof {
                    assert(raw@.subrange(pos as int + 1 + ll as int, pos as int + 1 + ll as int
                        + l as int) =~= region.subrange(1 + ll as int, 1 + ll as int + l as int));
                }
                None
            },
            Some(items) => {
                proof {
                    assert(raw@.subrange(pos as int + 1 + ll as int, pos as int + 1 + ll as int
                        + l as int) =~= region.subrange(1 + ll as int, 1 + ll as int + l as int));
                }
                Some((RlpItem::List(items), pos + 1 + ll + l))
            },
        }
    }
}

/// Parse the region `raw[start..end]` as a sequence of items spanning it
/// exactly.
fn parse_span(raw: &[u8], start: usize, end: usize) -> (r: Option<Vec<RlpItem>>)
    requires
        start <= end && end <= raw@.len(),
    ensures
        r matches Some(v) ==> parse_items(raw@.subrange(start as int, end as int)) == Some::<
            Seq<ItemModel>,
        >(models_of(v@)),
        r is None ==> parse_items(raw@.subrange(start as int, end as int)) is None,
    decreases end - start, 1int,
{
    let ghost whole = raw@.subrange(start as int, end as int);
    let mut items: Vec<RlpItem> = Vec::new();
    let mut cur: usize = start;
    proof {
        assert(models_of(items@) =~= Seq::<ItemModel>::empty());
        if parse_items(whole) is Some {
            let rest = parse_items(whole)->Some_0;
            assert(models_of(items@) + rest =~= rest);
        }
    }
    while cur < end
        invariant
            start <= cur <= end <= raw@.len(),
            whole == raw@.subrange(start as int, end as int),
            parse_items(whole) == (match parse_items(raw@.subrange(cur as int, end as int)) {
                None => None::<Seq<ItemModel>>,
                Some(rest) => Some(models_of(items@) + rest),
            }),
        decreases end - cur,
    {
        let ghost sub = raw@.subrange(cur as int, end as int);
        match parse_at(raw, cur, end) {
            None => {
                return None;
            },
            Some((item, npos)) => {
                proof {
                    assert(sub.len() > 0);
                    assert(sub.skip((npos - cur) as int) =~= raw@.subrange(
                        npos as int,
                        end as int,
                    ));
                    crate::item::lemma_models_of(items@);
                    crate::item::lemma_models_of(items@.push(item));
                    assert(models_of(items@.push(item)) =~= models_of(items@).push(item@));
                    if parse_items(raw@.subrange(npos as int, end as int)) is Some {
                        let rest = parse_items(raw@.subrange(npos as int, end as int))->Some_0;
                        assert(models_of(items@) + (seq![item@] + rest) =~= models_of(
                            items@,
                        ).push(item@) + rest);
                    }
                }
                items.push(item);
                cur = npos;
            },
        }
    }
    proof {
        assert(raw@.subrange(cur as int, end as int).len() == 0);
        assert(models_of(items@) + Seq::<ItemModel>::empty() =~= models_of(items@));
    }
    Some(items)
}

/// Appending a well-bounded item keeps a sequence well-bounded.
proof fn lemma_ser_ok_items_push(items: Seq<ItemModel>, t: ItemModel)
    requires
        ser_ok_items(items),
        ser_ok(t),
    ensures
        ser_ok_items(items.push(t)),
    decreases items.len(),
{
    reveal_with_fuel(ser_ok_items, 3);
    if items.len() == 0 {
        assert(items.push(t).first() == t);
        assert(items.push(t).drop_first() =~= Seq::<ItemModel>::empty());
    } else {
        assert(items.push(t).first() == items.first());
        assert(items.push(t).drop_first() =~= items.drop_first().push(t));
        lemma_ser_ok_items_push(items.drop_first(), t);
    }
}


// ---------------------------------------------------------------------------
// The parser inverts the serializer.
// ---------------------------------------------------------------------------

/// Wire bytes are never empty.
proof fn lemma_ser_len_pos(t: ItemModel)
    ensures
        ser(t).len() >= 1,
{
}

/// Parsing the front of the wire bytes of a well-bounded item, whatever
/// follows them, yields that item back, spanning exactly its wire bytes.
pub proof fn lemma_parse_ser(t: ItemModel, rest: Seq<u8>)
    requires
        ser_ok(t),
    ensures
        parse(ser(t) + rest) == Some::<(ItemModel, nat)>((t, ser(t).len())),
    decreases t, 1int,
{
    lemma_pow256_8();
    let raw = ser(t) + rest;
    match t {
        ItemModel::Scalar(b) => {
            if b.len() == 1 && b[0] < 0x80 {
                assert(raw[0] == b[0]);
                assert(seq![raw[0]] =~= b);
            } else if b.len() <= 55 {
                assert(0x80 + b.len() <= 0xb7);
                let h = (0x80 + b.len()) as u8;
                assert(raw[0] == h);
                assert(h - 0x80 == b.len());
                assert(raw.subrange(1, 1 + b.len() as int) =~= b);
            } else {
                lemma_be_len(b.len(), 8);
                crate::numbers::lemma_be_canonical(b.len());
                crate::numbers::lemma_be_val_of_be(b.len());
                let lb = be(b.len());
                let ll = lb.len();
                assert(0xb8 <= 0xb7 + ll <= 0xbf);
                let h = (0xb7 + ll) as u8;
                assert(raw[0] == h);
                assert(h - 0xb7 == ll);
                assert(raw.len() >= 1 + ll);
                assert(raw[1] == lb[0]);
                assert(raw.subrange(1, 1 + ll as int) =~= lb);
                assert(raw.len() >= 1 + ll + b.len());
                assert(raw.subrange(1 + ll as int, 1 + ll as int + b.len() as int) =~= b);
            }
        },
        ItemModel::List(items) => {
            let payload = ser_items(items);
            lemma_parse_ser_items(items);
            if payload.len() <= 55 {
                assert(0xc0 + payload.len() <= 0xf7);
                let h = (0xc0 + payload.len()) as u8;
                assert(raw[0] == h);
                assert(h >= 0xc0);
                assert(h - 0xc0 == payload.len());
                assert(raw.subrange(1, 1 + payload.len() as int) =~= payload);
            } else {
                lemma_be_len(payload.len(), 8);
                crate::numbers::lemma_be_canonical(payload.len());
                crate::numbers::lemma_be_val_of_be(payload.len());
                let lb = be(payload.len());
                let ll = lb.len();
                assert(0xf8 <= 0xf7 + ll <= 0xff);
                let h = (0xf7 + ll) as u8;
                assert(raw[0] == h);
                assert(h - 0xf7 == ll);
                assert(raw.len() >= 1 + ll);
                assert(raw[1] == lb[0]);
                assert(raw.subrange(1, 1 + ll as int) =~= lb);
                assert(raw.len() >= 1 + ll + payload.len());
                assert(raw.subrange(1 + ll as int, 1 + ll as int + payload.len() as int)
                    =~= payload);
            }
        },
    }
}

/// Parsing the concatenated wire bytes of a sequence of well-bounded items
/// yields the items back, in order.
pub proof fn lemma_parse_ser_items(items: Seq<ItemModel>)
    requires
        ser_ok_items(items),
    ensures
        parse_items(ser_items(items)) == Some::<Seq<ItemModel>>(items),
    decreases items, 0int,
{
    if items.len() == 0 {
        assert(ser_items(items) =~= Seq::<u8>::empty());
        assert(items =~= Seq::<ItemModel>::empty());
    } else {
        let first = items.first();
        let tail = items.drop_first();
        let payload = ser_items(items);
        lemma_parse_ser(first, ser_items(tail));
        lemma_ser_len_pos(first);
        let used = ser(first).len();
        assert(payload == ser(first) + ser_items(tail));
        assert(payload.len() >= used);
        assert(payload.skip(used as int) =~= ser_items(tail));
        lemma_parse_ser_items(tail);
        assert(seq![first] + tail =~= items);
    }
}

// ---------------------------------------------------------------------------
// Byte-level message codec.
// ---------------------------------------------------------------------------

/// What decoding a wire record (as raw bytes) with a given identifier
/// yields: identifiers outside 0..=7 always give `Unknown`; otherwise the
/// record is parsed and decoded, unparseable bytes failing as a malformed
/// record.
pub open spec fn spec_decode_bytes(raw: Seq<u8>, id: usize) -> Result<MsgModel, DecodeError> {
    if id > 7 {
        Ok(MsgModel::Unknown)
    } else {
        match parse(raw) {
            None => Err(DecodeError::MalformedList),
            Some((t, used)) => spec_decode(t, id),
        }
    }
}

/// Parse one wire record from the front of untrusted bytes. Total:
/// malformed input yields nothing, never a panic.
pub fn parse_record(raw: &[u8]) -> (r: Option<RlpItem>)
    ensures
        r matches Some(it) ==> (parse(raw@) matches Some(p) && p.0 == it@),
        r is None ==> parse(raw@) is None,
{
    proof {
        assert(raw@.subrange(0, raw@.len() as int) =~= raw@);
    }
    match parse_at(raw, 0, raw.len()) {
        None => None,
        Some((item, _)) => Some(item),
    }
}

impl ETHMessage {
    /// Decode a wire record into a message using the given message id.
    ///
    /// Total over arbitrary untrusted bytes: malformed input yields a
    /// decode error, never a panic.
    pub fn decode(raw: &[u8], id: usize) -> (r: Result<ETHMessage, DecodeError>)
        ensures
            r matches Ok(m) ==> spec_decode_bytes(raw@, id) == Ok::<MsgModel, DecodeError>(m@),
            r matches Err(e) ==> spec_decode_bytes(raw@, id) == Err::<MsgModel, DecodeError>(e),
    {
        if id > 7 {
            return Ok(ETHMessage::Unknown);
        }
        proof {
            assert(raw@.subrange(0, raw@.len() as int) =~= raw@);
        }
        match parse_at(raw, 0, raw.len()) {
            None => Err(DecodeError::MalformedList),
            Some((item, _)) => ETHMessage::decode_item(&item, id),
        }
    }

    /// The wire bytes of this message: its record, serialized.
    pub fn encode_bytes(&self) -> (r: Vec<u8>)
        ensures
            r@ == ser(spec_encode(self@)),
            ser_ok(spec_encode(self@)),
    {
        let item = self.encode();
        serialize_item(&item)
    }
}

} // verus!
