//! The validator set: quorum arithmetic and round-robin proposer selection.

use vstd::arithmetic::div_mod::lemma_add_mod_noop;
use vstd::prelude::*;
use vstd::view::View as _;

use crate::view::View;

verus! {

/// 20-byte identity of a validator, derived from its public key.
pub type Address = Vec<u8>;

/// Number of bytes in an address.
pub const ADDRESS_LEN: usize = 20;

/// The addresses of a validator list, as byte strings.
pub open spec fn addresses(vals: Seq<Address>) -> Seq<Seq<u8>> {
    vals.map_values(|a: Address| a@)
}

/// `a` is one of the validators.
pub open spec fn is_member(vals: Seq<Address>, a: Seq<u8>) -> bool {
    exists|i: int| 0 <= i < vals.len() && #[trigger] vals[i]@ == a
}

/// The number of faults tolerated by `n` validators: `(n - 1) / 3`, none for an empty set.
pub open spec fn faulty_of(n: nat) -> nat {
    if n == 0 {
        0
    } else {
        ((n - 1) as nat) / 3
    }
}

/// Votes needed to decide among `n` validators: `2f + 1`.
pub open spec fn quorum_of(n: nat) -> nat {
    2 * faulty_of(n) + 1
}

/// Index of the proposer for `view` among `n` validators: `(height + round) mod n`.
pub open spec fn proposer_index_of(v: View, n: nat) -> nat
    recommends
        n > 0,
{
    ((v.height as nat + v.round as nat) % n) as nat
}

/// The proposer for `view`.
pub open spec fn proposer_of(vals: Seq<Address>, v: View) -> Seq<u8>
    recommends
        vals.len() > 0,
{
    vals[proposer_index_of(v, vals.len()) as int]@
}

/// Faults tolerated by `n` validators.
pub fn max_faulty(n: usize) -> (r: usize)
    ensures
        r == faulty_of(n as nat),
{
    if n == 0 {
        0
    } else {
        (n - 1) / 3
    }
}

/// Votes needed to decide among `n` validators.
pub fn quorum(n: usize) -> (r: usize)
    ensures
        r == quorum_of(n as nat),
{
    let f = max_faulty(n);
    assert(2 * f + 1 <= n + 1);
    2 * f + 1
}

/// Index of the proposer for `view` among `n` validators.
pub fn proposer_index(v: &View, n: usize) -> (r: usize)
    requires
        n > 0,
    ensures
        r == proposer_index_of(*v, n as nat),
        r < n,
{
    let a = v.height % (n as u64);
    let b = v.round % (n as u64);
    let m = n as u64;
    let s = if a >= m - b { a - (m - b) } else { a + b };
    assert(s == (a as int + b as int) % (m as int)) by {
        vstd::arithmetic::div_mod::lemma_mod_self_0(m as int);
        if a + b >= m {
            vstd::arithmetic::div_mod::lemma_mod_sub_multiples_vanish((a + b) as int, m as int);
            vstd::arithmetic::div_mod::lemma_small_mod((a + b - m) as nat, m as nat);
        } else {
            vstd::arithmetic::div_mod::lemma_small_mod((a + b) as nat, m as nat);
        }
    }
    proof {
        lemma_add_mod_noop(v.height as int, v.round as int, n as int);
    }
    s as usize
}

/// The proposer for `view`: `validators[(height + round) mod n]`.
pub fn proposer<'a>(validators: &'a Vec<Address>, v: &View) -> (r: &'a Address)
    requires
        validators@.len() > 0,
    ensures
        r@ == proposer_of(validators@, *v),
{
    let i = proposer_index(v, validators.len());
    &validators[i]
}

/// Byte-for-byte equality.
pub fn same_bytes(a: &[u8], b: &[u8]) -> (r: bool)
    ensures
        r == (a@ == b@),
{
    if a.len() != b.len() {
        return false;
    }
    let mut i: usize = 0;
    while i < a.len()
        invariant
            a@.len() == b@.len(),
            i <= a@.len(),
            a@.subrange(0, i as int) == b@.subrange(0, i as int),
        decreases a@.len() - i,
    {
        if a[i] != b[i] {
            assert(a@[i as int] != b@[i as int]);
            return false;
        }
        assert(a@.subrange(0, i + 1) =~= a@.subrange(0, i as int).push(a@[i as int]));
        assert(b@.subrange(0, i + 1) =~= b@.subrange(0, i as int).push(b@[i as int]));
        i = i + 1;
    }
    assert(a@ =~= a@.subrange(0, i as int));
    assert(b@ =~= b@.subrange(0, i as int));
    true
}

/// The position of `a` in the validator list, if it is a member.
pub fn position(validators: &Vec<Address>, a: &Address) -> (r: Option<usize>)
    ensures
        r.is_some() <==> is_member(validators@, a@),
        r.is_some() ==> r.unwrap() < validators@.len() && validators@[r.unwrap() as int]@ == a@,
        r.is_some() ==> forall|j: int| 0 <= j < r.unwrap() ==> validators@[j]@ != a@,
{
    let mut i: usize = 0;
    while i < validators.len()
        invariant
            i <= validators@.len(),
            forall|j: int| 0 <= j < i ==> validators@[j]@ != a@,
        decreases validators@.len() - i,
    {
        if same_bytes(validators[i].as_slice(), a.as_slice()) {
            return Some(i);
        }
        i = i + 1;
    }
    None
}

/// Every node that holds the same validator list computes the same proposer for a
/// view, and it is the validator at `(height + round) mod n`; the next round at
/// the same height passes the turn to the next validator in the list.
pub proof fn lemma_proposer_determinism(vals_a: Seq<Address>, vals_b: Seq<Address>, v: View)
    requires
        vals_a.len() > 0,
        addresses(vals_a) == addresses(vals_b),
    ensures
        proposer_of(vals_a, v) == proposer_of(vals_b, v),
        proposer_index_of(v, vals_a.len()) < vals_a.len(),
        v.round < u64::MAX ==> proposer_index_of(View { height: v.height, round: (v.round + 1) as u64 }, vals_a.len())
            == ((proposer_index_of(v, vals_a.len()) + 1) as int) % (vals_a.len() as int),
{
    let n = vals_a.len();
    assert(vals_b.len() == addresses(vals_b).len());
    let i = proposer_index_of(v, n) as int;
    assert(addresses(vals_a).len() == n);
    assert(addresses(vals_a)[i] == addresses(vals_b)[i]);
    if v.round < u64::MAX {
        let x = v.height as int + v.round as int;
        lemma_add_mod_noop(x, 1, n as int);
        vstd::arithmetic::div_mod::lemma_mod_twice(x, n as int);
        if n == 1 {
            vstd::arithmetic::div_mod::lemma_mod_self_0(1);
        } else {
            vstd::arithmetic::div_mod::lemma_small_mod(1, n);
        }
    }
}

/// A quorum never exceeds the set and fewer than a third are faulty; where
/// `n = 3f + 1`, two quorums overlap in more than `f` members, so at least one
/// honest validator stands in both.
pub proof fn lemma_quorum_intersection(n: nat)
    requires
        n > 0,
    ensures
        n % 3 == 1 ==> 2 * quorum_of(n) >= n + faulty_of(n) + 1,
        quorum_of(n) <= n,
        3 * faulty_of(n) < n,
{
}

} // verus!
