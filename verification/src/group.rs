//! The group that tracer keys and decrypted values live in.
use vstd::prelude::*;

use crate::keys::PublicKey;
use crate::primitives::public_key_sum;

verus! {

/// A group element: the identity, or a public key.
#[derive(Debug, Clone, Copy, PartialEq, Eq)]
pub struct Gt {
    pub point: Option<PublicKey>,
}

impl View for Gt {
    type V = Option<Seq<u8>>;

    /// The compressed encoding of the element, or none for the identity.
    open spec fn view(&self) -> Option<Seq<u8>> {
        match self.point {
            Some(pk) => Some(pk@),
            None => None,
        }
    }
}

/// The group operation on encodings.
pub open spec fn group_sum(a: Option<Seq<u8>>, b: Option<Seq<u8>>) -> Option<Seq<u8>> {
    match (a, b) {
        (Some(x), Some(y)) => public_key_sum(x, y),
        (Some(_), None) => a,
        (None, _) => b,
    }
}

/// The sum of a sequence of elements, added up from the identity in order.
pub open spec fn group_total(elements: Seq<Gt>) -> Option<Seq<u8>>
    decreases elements.len(),
{
    if elements.len() == 0 {
        None
    } else {
        group_sum(group_total(elements.drop_last()), elements.last()@)
    }
}

impl Gt {
    /// The neutral element.
    pub fn identity() -> (g: Gt)
        ensures
            g@ is None,
    {
        Gt { point: None }
    }

    /// The element that a public key stands for.
    pub fn from_public_key(pk: &PublicKey) -> (g: Gt)
        ensures
            g.point == Some(*pk),
    {
        Gt { point: Some(*pk) }
    }

    /// The public key that stands for this element; the identity has none.
    pub fn to_public_key(&self) -> (pk: Option<PublicKey>)
        ensures
            pk == self.point,
    {
        self.point
    }

    /// The group operation.
    pub fn add(&self, other: &Gt) -> (sum: Gt)
        ensures
            sum@ == group_sum(self@, other@),
    {
        match (self.point, other.point) {
            (Some(a), Some(b)) => Gt { point: a.combine(&b) },
            (Some(_), None) => *self,
            (None, _) => *other,
        }
    }

    /// Whether two elements are the same.
    pub fn same_as(&self, other: &Gt) -> (same: bool)
        ensures
            same == (*self == *other),
    {
        match (self.point, other.point) {
            (Some(a), Some(b)) => a.same_as(&b),
            (None, None) => true,
            _ => false,
        }
    }
}

/// The identity changes nothing, and two keys add up as the curve has it.
pub proof fn identity_is_neutral(a: Option<Seq<u8>>, x: Seq<u8>, y: Seq<u8>)
    ensures
        group_sum(None, a) == a,
        group_sum(a, None) == a,
        group_sum(Some(x), Some(y)) == public_key_sum(x, y),
{
}

/// A sum grows by every element that is added, however many there are, from
/// the identity on.
pub proof fn every_element_is_added(elements: Seq<Gt>, element: Gt)
    ensures
        group_total(Seq::empty()) is None,
        group_total(elements.push(element)) == (match (group_total(elements), element.point) {
            (None, None) => None,
            (None, Some(pk)) => Some(pk@),
            (Some(total), None) => Some(total),
            (Some(total), Some(pk)) => public_key_sum(total, pk@),
        }),
{
    assert(elements.push(element).drop_last() =~= elements);
}

} // verus!
