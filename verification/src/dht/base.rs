//! Identifier algebra and the description of a known node.

use rand::Rng;
use std::fmt::Debug;
use std::hash::Hash;
use vstd::prelude::*;
use vstd::std_specs::bits::u64_leading_zeros;
use vstd::std_specs::cmp::PartialEqSpecImpl;

verus! {

/// Number of bits needed to write `x`: one more than the position of its
/// highest set bit, and zero for zero.
pub open spec fn bit_length(x: u64) -> nat
    decreases x,
{
    if x == 0 {
        0
    } else {
        1 + bit_length(x / 2)
    }
}

/// `bit_length` counts what `leading_zeros` leaves of the 64 bits.
pub proof fn lemma_bit_length_leading_zeros(x: u64)
    ensures
        bit_length(x) == 64 - u64_leading_zeros(x),
    decreases x,
{
    reveal(u64_leading_zeros);
    if x != 0 {
        lemma_bit_length_leading_zeros(x / 2);
    }
}

/// An identifier has at most `k` bits exactly when it lies below `2^k`.
pub proof fn lemma_bit_length_bound(x: u64, k: nat)
    requires
        k < 64,
    ensures
        bit_length(x) <= k <==> x < (1u64 << k),
    decreases k,
{
    let k64 = k as u64;
    if k == 0 {
        assert((1u64 << 0u64) == 1u64) by (bit_vector);
    } else {
        let j = (k - 1) as u64;
        lemma_bit_length_bound(x / 2, (k - 1) as nat);
        assert(x / 2 < (1u64 << j) <==> x < (1u64 << k64)) by (bit_vector)
            requires
                0 < k64 < 64,
                j == k64 - 1,
        ;
    }
}

/// Every identifier fits in 64 bits.
pub proof fn lemma_bit_length_max(x: u64)
    ensures
        bit_length(x) <= 64,
{
    lemma_bit_length_leading_zeros(x);
    vstd::std_specs::bits::axiom_u64_leading_zeros(x);
}

/// An identifier of `b + 1` bits lies in `[2^b, 2^(b+1))`.
pub proof fn lemma_bit_length_interval(x: u64, b: nat)
    requires
        b < 64,
    ensures
        bit_length(x) == b + 1 <==> (1u64 << b) <= x && (b < 63 ==> x < (1u64 << ((b + 1) as nat))),
{
    lemma_bit_length_bound(x, b);
    if b < 63 {
        lemma_bit_length_bound(x, b + 1);
    } else {
        lemma_bit_length_max(x);
    }
}

/// A fixed-width unsigned identifier under the XOR metric.
pub trait GenericId: Hash + PartialEq + Eq + Ord + Clone + Send + Sync + Debug {
    /// The XOR of two identifiers.
    spec fn xor_of(&self, other: &Self) -> Self;

    /// Whether the identifier is zero.
    spec fn zero(&self) -> bool;

    /// Position of the highest set bit plus one; zero for zero.
    spec fn bit_len(&self) -> nat;

    /// Width of the identifier in bits.
    spec fn width() -> nat;

    fn bitxor(&self, other: &Self) -> (r: Self)
        ensures
            r == self.xor_of(other),
    ;

    fn is_zero(&self) -> (r: bool)
        ensures
            r == self.zero(),
    ;

    fn bits(&self) -> (r: usize)
        ensures
            r == self.bit_len(),
    ;

    /// A random identifier of at most `bit_size` bits.
    fn gen(bit_size: usize) -> (r: Self)
        requires
            bit_size <= Self::width(),
        ensures
            r.bit_len() <= bit_size,
    ;
}

/// Draws from rand's thread-local generator with `Rng::next_u64`. Any value
/// may come back, so nothing is claimed of it.
#[verifier::external_body]
fn random_u64() -> u64 {
    rand::thread_rng().next_u64()
}

/// Draws from rand's thread-local generator with `Rng::gen_range`, which
/// samples the half-open range `[low, high)` and panics when it is empty.
#[verifier::external_body]
fn random_in_range(low: u64, high: u64) -> (r: u64)
    requires
        low < high,
    ensures
        low <= r < high,
{
    rand::thread_rng().gen_range(low, high)
}

/// Draws from rand's thread-local generator with `Rng::gen_weighted_bool`,
/// which is true with one chance in `n`. Either value may come back, so
/// nothing is claimed of it.
#[verifier::external_body]
pub(crate) fn one_in(n: u32) -> bool {
    rand::thread_rng().gen_weighted_bool(n)
}

impl GenericId for u64 {
    open spec fn xor_of(&self, other: &u64) -> u64 {
        *self ^ *other
    }

    open spec fn zero(&self) -> bool {
        *self == 0
    }

    open spec fn bit_len(&self) -> nat {
        bit_length(*self)
    }

    open spec fn width() -> nat {
        64
    }

    fn bitxor(&self, other: &u64) -> (r: u64) {
        *self ^ *other
    }

    fn is_zero(&self) -> (r: bool) {
        *self == 0
    }

    fn bits(&self) -> (r: usize) {
        proof {
            lemma_bit_length_leading_zeros(*self);
            vstd::std_specs::bits::axiom_u64_leading_zeros(*self);
        }
        (64 - self.leading_zeros()) as usize
    }

    fn gen(bit_size: usize) -> (r: u64) {
        if bit_size == 64 {
            let r = random_u64();
            proof {
                lemma_bit_length_max(r);
            }
            r
        } else {
            let high: u64 = 1u64 << bit_size;
            proof {
                let k = bit_size as u64;
                assert((1u64 << k) > 0) by (bit_vector)
                    requires
                        k < 64,
                ;
            }
            let r = random_in_range(0, high);
            proof {
                lemma_bit_length_bound(r, bit_size as nat);
            }
            r
        }
    }
}

/// The XOR metric: an identifier is at distance zero from itself, the
/// distance is symmetric, and going through a third identifier is never
/// shorter, whether the two legs are combined by XOR or by addition.
pub proof fn lemma_xor_metric(a: u64, b: u64, c: u64)
    ensures
        bit_length(a ^ a) == 0,
        a ^ b == b ^ a,
        a ^ c <= (a ^ b) ^ (b ^ c),
        (a ^ c) <= (a ^ b) + (b ^ c),
        a ^ b == 0 <==> a == b,
{
    assert(a ^ a == 0) by (bit_vector);
    assert(a ^ b == b ^ a) by (bit_vector);
    assert(a ^ c == (a ^ b) ^ (b ^ c)) by (bit_vector);
    assert((a ^ c) <= (a ^ b) + (b ^ c)) by (bit_vector);
    assert(a ^ b == 0 <==> a == b) by (bit_vector);
}

/// XOR with a fixed target is one-to-one: two identifiers at the same
/// distance from it are the same identifier.
pub proof fn lemma_xor_injective(a: u64, b: u64, target: u64)
    ensures
        (a ^ target) == (b ^ target) <==> a == b,
        (target ^ a) == (target ^ b) <==> a == b,
{
    assert((a ^ target) == (b ^ target) <==> a == b) by (bit_vector);
    assert((target ^ a) == (target ^ b) <==> a == b) by (bit_vector);
}

/// What a table knows of a node: its identifier and a path to it.
pub struct DHTNodeView {
    pub id: u64,
    pub route: Seq<u64>,
}

/// A node of the overlay as seen from another node: its identifier and the
/// currently best known route to it, consumed from the tail.
#[derive(Debug)]
pub struct DHTNode {
    /// Hops from the holder to the node; the last element is the next hop.
    pub route: Vec<u64>,
    /// Identifier of the node.
    pub id: u64,
}

impl View for DHTNode {
    type V = DHTNodeView;

    open spec fn view(&self) -> DHTNodeView {
        DHTNodeView { id: self.id, route: self.route@ }
    }
}

impl DeepView for DHTNode {
    type V = DHTNodeView;

    open spec fn deep_view(&self) -> DHTNodeView {
        self@
    }
}

impl Clone for DHTNode {
    fn clone(&self) -> (r: Self)
        ensures
            r@ == self@,
    {
        DHTNode { route: self.route.clone(), id: self.id }
    }
}

impl PartialEq for DHTNode {
    /// Two descriptions are equal when they name the same node.
    fn eq(&self, other: &DHTNode) -> (r: bool) {
        self.id == other.id
    }
}

impl PartialEqSpecImpl for DHTNode {
    open spec fn obeys_eq_spec() -> bool {
        true
    }

    open spec fn eq_spec(&self, other: &DHTNode) -> bool {
        self.id == other.id
    }
}

impl DHTNode {
    /// Extends the route with the hops of `e`, which is left empty. The route
    /// is consumed from its tail, so these hops are travelled first.
    pub fn prepend(&mut self, e: &mut Vec<u64>)
        ensures
            final(self).id == old(self).id,
            final(self).route@ == old(self).route@ + old(e)@,
            final(e)@ == Seq::<u64>::empty(),
    {
        self.route.append(e)
    }
}

} // verus!
