//! Recursive length-prefixed wire items: a record on the wire is either a
//! byte string or a list of nested items.

use vstd::prelude::*;

verus! {

/// One wire item: a byte string or a list of nested items.
#[derive(Debug, PartialEq, Eq)]
pub enum RlpItem {
    Str(Vec<u8>),
    List(Vec<RlpItem>),
}

/// Mathematical model of a wire item.
#[verifier::ext_equal]
pub enum ItemModel {
    Scalar(Seq<u8>),
    List(Seq<ItemModel>),
}

impl RlpItem {
    pub open spec fn model(self) -> ItemModel
        decreases self,
    {
        match self {
            RlpItem::Str(b) => ItemModel::Scalar(b@),
            RlpItem::List(v) => ItemModel::List(models_of(v@)),
        }
    }

    /// Deep copy of an item.
    pub fn clone_item(&self) -> (r: RlpItem)
        ensures
            r@ == self@,
        decreases *self,
    {
        match self {
            RlpItem::Str(b) => RlpItem::Str(clone_bytes(b)),
            RlpItem::List(v) => {
                let c = clone_items(v);
                proof {
                    lemma_models_of(c@);
                    lemma_models_of(v@);
                    assert(models_of(c@) =~= models_of(v@));
                }
                RlpItem::List(c)
            },
        }
    }
}

impl View for RlpItem {
    type V = ItemModel;

    open spec fn view(&self) -> ItemModel {
        self.model()
    }
}

/// Models of a sequence of items, in order.
pub open spec fn models_of(s: Seq<RlpItem>) -> Seq<ItemModel>
    decreases s,
{
    if s.len() == 0 {
        Seq::empty()
    } else {
        models_of(s.drop_last()).push(s.last().model())
    }
}

/// `models_of` maps each item of the sequence to its model, keeping order.
pub proof fn lemma_models_of(s: Seq<RlpItem>)
    ensures
        models_of(s).len() == s.len(),
        forall|i: int| 0 <= i < s.len() ==> models_of(s)[i] == s[i].model(),
    decreases s,
{
    if s.len() > 0 {
        lemma_models_of(s.drop_last());
    }
}

/// Deep copy of a byte string.
pub fn clone_bytes(b: &Vec<u8>) -> (r: Vec<u8>)
    ensures
        r@ == b@,
{
    let mut r: Vec<u8> = Vec::new();
    let mut i: usize = 0;
    while i < b.len()
        invariant
            i <= b.len(),
            r@ == b@.subrange(0, i as int),
        decreases b.len() - i,
    {
        r.push(b[i]);
        i = i + 1;
    }
    assert(r@ == b@);
    r
}

/// Deep copy of a sequence of items.
pub fn clone_items(v: &Vec<RlpItem>) -> (r: Vec<RlpItem>)
    ensures
        r@.len() == v@.len(),
        forall|i: int| 0 <= i < v@.len() ==> r@[i]@ == v@[i]@,
        models_of(r@) == models_of(v@),
    decreases v@,
{
    let mut r: Vec<RlpItem> = Vec::new();
    let mut i: usize = 0;
    while i < v.len()
        invariant
            i <= v.len(),
            r@.len() == i,
            forall|j: int| 0 <= j < i ==> r@[j]@ == v@[j]@,
        decreases v.len() - i,
    {
        proof {
            assert(decreases_to!(v@ => v@[i as int]));
        }
        r.push(v[i].clone_item());
        i = i + 1;
    }
    proof {
        lemma_models_of(r@);
        lemma_models_of(v@);
        assert(models_of(r@) =~= models_of(v@));
    }
    r
}

} // verus!
