//! Views: the (height, round) pair that names one consensus attempt, totally
//! ordered by height and then by round, with their canonical sixteen-byte form.

use core::cmp::Ordering;
use vstd::prelude::*;
use vstd::view::View as _;

use crate::codec::{
    be_bytes, be_value, lemma_be_bytes_of_value, lemma_be_round_trip, push_u64, read_u64,
    CodecError,
};

verus! {

/// Chain height; the genesis block stands at height zero.
pub type Height = u64;

/// Attempt number within one height; it starts at zero and grows on each view change.
pub type Round = u64;

#[derive(Debug, Clone, Copy)]
pub struct View {
    pub round: Round,
    pub height: Height,
}

/// The order of views: by height first, then by round.
pub open spec fn view_order(a: View, b: View) -> Ordering {
    if a.height < b.height {
        Ordering::Less
    } else if a.height > b.height {
        Ordering::Greater
    } else if a.round < b.round {
        Ordering::Less
    } else if a.round > b.round {
        Ordering::Greater
    } else {
        Ordering::Equal
    }
}

/// `a` comes strictly before `b`.
pub open spec fn view_lt(a: View, b: View) -> bool {
    a.height < b.height || (a.height == b.height && a.round < b.round)
}

/// The canonical bytes of a view: height, then round, each eight bytes big-endian.
pub open spec fn view_bytes(v: View) -> Seq<u8> {
    be_bytes(v.height) + be_bytes(v.round)
}

/// Number of bytes in the canonical form of a view.
pub const VIEW_LEN: usize = 16;

impl View {
    pub fn new(height: Height, round: Round) -> (r: Self)
        ensures
            r.height == height,
            r.round == round,
    {
        View { height: height, round: round }
    }

    /// The canonical sixteen bytes of this view.
    pub fn encode(&self) -> (r: Vec<u8>)
        ensures
            r@ == view_bytes(*self),
    {
        let mut out: Vec<u8> = Vec::new();
        push_u64(&mut out, self.height);
        push_u64(&mut out, self.round);
        assert(out@ =~= view_bytes(*self));
        out
    }

    /// Reads a view from exactly sixteen canonical bytes.
    pub fn decode(bytes: &[u8]) -> (r: Result<View, CodecError>)
        ensures
            r.is_ok() <==> bytes@.len() == VIEW_LEN,
            r.is_ok() ==> r.unwrap().height == be_value(bytes@, 0) && r.unwrap().round
                == be_value(bytes@, 8),
            r.is_ok() ==> view_bytes(r.unwrap()) == bytes@,
    {
        if bytes.len() != VIEW_LEN {
            return Err(CodecError::CorruptedBytes);
        }
        let height = read_u64(bytes, 0).unwrap();
        let round = read_u64(bytes, 8).unwrap();
        let v = View { height, round };
        proof {
            lemma_be_bytes_of_value(bytes@, 0);
            lemma_be_bytes_of_value(bytes@, 8);
            assert(bytes@ =~= bytes@.subrange(0, 8) + bytes@.subrange(8, 16));
        }
        Ok(v)
    }
}

/// Decoding the canonical bytes of a view gives that view back, and the bytes
/// are the same whether taken before or after the trip.
pub proof fn lemma_view_round_trip(v: View)
    ensures
        view_bytes(v).len() == VIEW_LEN,
        be_value(view_bytes(v), 0) == v.height,
        be_value(view_bytes(v), 8) == v.round,
        view_bytes(View { height: be_value(view_bytes(v), 0), round: be_value(view_bytes(v), 8) })
            == view_bytes(v),
{
    lemma_be_round_trip(v.height, Seq::empty(), be_bytes(v.round));
    lemma_be_round_trip(v.round, be_bytes(v.height), Seq::empty());
    assert(Seq::<u8>::empty() + be_bytes(v.height) + be_bytes(v.round) =~= view_bytes(v));
    assert(be_bytes(v.height) + be_bytes(v.round) + Seq::<u8>::empty() =~= view_bytes(v));
}

/// The order of views is a strict total order: irreflexive, transitive, and any
/// two distinct views are comparable.
pub proof fn lemma_view_total_order(a: View, b: View, c: View)
    ensures
        !view_lt(a, a),
        view_lt(a, b) && view_lt(b, c) ==> view_lt(a, c),
        (a.height == b.height && a.round == b.round) || view_lt(a, b) || view_lt(b, a),
        view_lt(a, b) ==> !view_lt(b, a),
        view_order(a, b) == Ordering::Less <==> view_lt(a, b),
        view_order(a, b) == Ordering::Greater <==> view_lt(b, a),
{
}

impl Default for View {
    fn default() -> (r: View)
        ensures
            r.height == 0 && r.round == 0,
    {
        View { round: 0, height: 0 }
    }
}

impl PartialEq for View {
    fn eq(&self, other: &View) -> (r: bool)
        ensures
            r == (self.height == other.height && self.round == other.round),
    {
        self.height == other.height && self.round == other.round
    }
}

impl vstd::std_specs::cmp::PartialEqSpecImpl for View {
    open spec fn obeys_eq_spec() -> bool {
        true
    }

    open spec fn eq_spec(&self, other: &View) -> bool {
        self.height == other.height && self.round == other.round
    }
}

impl Eq for View {

}

impl PartialOrd for View {
    fn partial_cmp(&self, other: &View) -> (r: Option<Ordering>)
        ensures
            r == Some(view_order(*self, *other)),
    {
        if self.height < other.height {
            Some(Ordering::Less)
        } else if self.height > other.height {
            Some(Ordering::Greater)
        } else if self.round < other.round {
            Some(Ordering::Less)
        } else if self.round > other.round {
            Some(Ordering::Greater)
        } else {
            Some(Ordering::Equal)
        }
    }
}

impl vstd::std_specs::cmp::PartialOrdSpecImpl for View {
    open spec fn obeys_partial_cmp_spec() -> bool {
        true
    }

    open spec fn partial_cmp_spec(&self, other: &View) -> Option<Ordering> {
        Some(view_order(*self, *other))
    }
}

} // verus!
