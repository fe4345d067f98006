//! Source-routed packets and the simplification of observed routes.

use crate::node::Node;
use std::collections::HashMap;
use vstd::prelude::*;

verus! {

broadcast use vstd::std_specs::hash::group_hash_axioms;

/// Where a packet comes from, where it goes, and the hops in between.
pub struct RouteHeader {
    pub from: u64,
    pub des: u64,
    pub route: Seq<u64>,
}

/// The header of the packet that retraces the path: the endpoints swapped
/// and the hops in reverse order.
pub open spec fn reversed(h: RouteHeader) -> RouteHeader {
    RouteHeader { from: h.des, des: h.from, route: h.route.reverse() }
}

/// The hops of a packet with its destination at the end.
pub open spec fn full_route(h: RouteHeader) -> Seq<u64> {
    h.route.push(h.des)
}

/// A typed payload with its source route. The route holds neither `from`
/// nor `des`; its last element is the next hop.
#[derive(Debug)]
pub struct Packet<T> {
    pub from: u64,
    pub des: u64,
    /// List of hops.
    pub route: Vec<u64>,
    pub data: T,
}

/// The routing part of a packet, without its payload.
#[derive(Debug)]
pub struct PacketRouteData {
    pub from: u64,
    pub des: u64,
    pub route: Vec<u64>,
}

impl View for PacketRouteData {
    type V = RouteHeader;

    open spec fn view(&self) -> RouteHeader {
        RouteHeader { from: self.from, des: self.des, route: self.route@ }
    }
}

/// A payload that a node can process when a packet reaches it.
pub trait PacketData: Sized {
    /// What the node answers.
    type Reply;

    /// What processing the packet makes of the node and which answer it
    /// gives.
    spec fn processed(
        packet: &Packet<Self>,
        before: &Node,
        after: &Node,
        reply: &Self::Reply,
    ) -> bool;

    /// Processes a packet that has arrived at its destination.
    fn process(packet: &Packet<Self>, node: &mut Node) -> (r: Self::Reply)
        requires
            old(node).wf(),
        ensures
            final(node).wf(),
            Self::processed(packet, old(node), final(node), &r),
    ;
}

/// Copies a route hop by hop.
pub fn copy_route(route: &Vec<u64>) -> (out: Vec<u64>)
    ensures
        out@ == route@,
{
    let mut out: Vec<u64> = Vec::new();
    let mut i: usize = 0;
    while i < route.len()
        invariant
            i <= route.len(),
            out@ == route@.take(i as int),
        decreases route.len() - i,
    {
        out.push(route[i]);
        i += 1;
    }
    out
}

/// The hops of a route in the opposite order.
pub fn reverse_route(route: &Vec<u64>) -> (out: Vec<u64>)
    ensures
        out@ == route@.reverse(),
{
    let mut out: Vec<u64> = Vec::new();
    let mut i: usize = route.len();
    while i > 0
        invariant
            i <= route.len(),
            out@.len() == route.len() - i,
            forall|k: int| 0 <= k < out@.len() ==> out@[k] == route@[route.len() - 1 - k],
        decreases i,
    {
        i -= 1;
        out.push(route[i]);
    }
    out
}

impl<T> Packet<T> {
    /// The routing part of the packet.
    pub open spec fn header(&self) -> RouteHeader {
        RouteHeader { from: self.from, des: self.des, route: self.route@ }
    }

    /// The header of the reply: source and destination swapped, hops reversed.
    pub fn reverse(&self) -> (r: PacketRouteData)
        ensures
            r@ == reversed(self.header()),
    {
        PacketRouteData { from: self.des, des: self.from, route: reverse_route(&self.route) }
    }

    /// The hops followed by the destination.
    pub fn get_full_route(&self) -> (r: Vec<u64>)
        ensures
            r@ == full_route(self.header()),
    {
        let mut r = copy_route(&self.route);
        r.push(self.des);
        r
    }

    /// Puts a payload under a header.
    pub fn new(r: PacketRouteData, d: T) -> (p: Packet<T>)
        ensures
            p.header() == r@,
            p.data == d,
    {
        Packet { data: d, route: r.route, des: r.des, from: r.from }
    }
}

/// Reversing a header twice gives the header back: a reply to a reply
/// travels as the first packet did.
pub proof fn lemma_reverse_involution(h: RouteHeader)
    ensures
        reversed(reversed(h)) == h,
{
    assert(h.route.reverse().reverse() =~= h.route);
}

/// Whether the hop at position `k` already occurs before `k`.
pub open spec fn seen_before(r: Seq<u64>, k: int) -> bool {
    exists|i: int| 0 <= i < k && r[i] == r[k]
}

/// The last position whose hop already occurs earlier in the route, or `-1`
/// when no hop occurs twice.
pub open spec fn last_repeat(r: Seq<u64>) -> int
    decreases r.len(),
{
    if r.len() == 0 {
        -1
    } else if seen_before(r, r.len() - 1) {
        r.len() - 1
    } else {
        last_repeat(r.drop_last())
    }
}

/// The first position at which `x` occurs in `r`; the length of `r` when it
/// does not occur.
pub open spec fn first_index(r: Seq<u64>, x: u64) -> int
    decreases r.len(),
{
    if r.len() == 0 {
        0
    } else if r[0] == x {
        0
    } else {
        1 + first_index(r.drop_first(), x)
    }
}

/// The position at which the cycle that `simplified` removes begins.
pub open spec fn cut_start(r: Seq<u64>) -> int {
    first_index(r, r[last_repeat(r)])
}

/// A route with its last cycle spliced out: what lies between the first
/// occurrence of the last repeated hop and that repetition is dropped. A
/// route without a repeated hop is left as it is.
pub open spec fn simplified(r: Seq<u64>) -> Seq<u64> {
    if last_repeat(r) < 0 {
        r
    } else {
        r.take(cut_start(r)) + r.skip(last_repeat(r))
    }
}

/// `first_index` finds an occurrence, and none lies before it.
pub proof fn lemma_first_index(r: Seq<u64>, x: u64)
    ensures
        0 <= first_index(r, x) <= r.len(),
        first_index(r, x) < r.len() ==> r[first_index(r, x)] == x,
        forall|k: int| 0 <= k < first_index(r, x) ==> r[k] != x,
    decreases r.len(),
{
    if r.len() > 0 && r[0] != x {
        let t = r.drop_first();
        lemma_first_index(t, x);
        assert forall|k: int| 0 <= k < first_index(r, x) implies r[k] != x by {
            if k > 0 {
                assert(r[k] == t[k - 1]);
            }
        }
        if first_index(r, x) < r.len() {
            assert(r[first_index(r, x)] == t[first_index(t, x)]);
        }
    }
}

/// A position that holds `x` with no `x` before it is the first index of `x`.
pub proof fn lemma_first_index_unique(r: Seq<u64>, x: u64, i: int)
    requires
        0 <= i < r.len(),
        r[i] == x,
        forall|k: int| 0 <= k < i ==> r[k] != x,
    ensures
        first_index(r, x) == i,
{
    lemma_first_index(r, x);
}

/// `last_repeat` is `-1` exactly on routes without a repeated hop; otherwise
/// it names a repeated hop after which every hop is new.
pub proof fn lemma_last_repeat(r: Seq<u64>)
    ensures
        -1 <= last_repeat(r) < r.len(),
        last_repeat(r) >= 0 ==> seen_before(r, last_repeat(r)),
        forall|k: int| last_repeat(r) < k < r.len() ==> !seen_before(r, k),
        last_repeat(r) < 0 <==> r.no_duplicates(),
    decreases r.len(),
{
    if r.len() > 0 {
        let t = r.drop_last();
        lemma_last_repeat(t);
        assert forall|k: int| 0 <= k < t.len() implies seen_before(t, k) == seen_before(r, k) by {
            if seen_before(t, k) {
                let i = choose|i: int| 0 <= i < k && t[i] == t[k];
                assert(r[i] == r[k]);
            }
            if seen_before(r, k) {
                let i = choose|i: int| 0 <= i < k && r[i] == r[k];
                assert(t[i] == t[k]);
            }
        }
        if seen_before(r, r.len() - 1) {
            let last = r.len() - 1;
            let i = choose|i: int| 0 <= i < last && r[i] == r[last];
            assert(!r.no_duplicates());
        } else {
            if last_repeat(t) >= 0 {
                let k = last_repeat(t);
                let i = choose|i: int| 0 <= i < k && t[i] == t[k];
                assert(r[i] == r[k]);
                assert(!r.no_duplicates());
            } else {
                assert forall|a: int, b: int| 0 <= a < r.len() && 0 <= b < r.len() && a
                    != b implies r[a] != r[b] by {
                    let lo = if a < b {
                        a
                    } else {
                        b
                    };
                    let hi = if a < b {
                        b
                    } else {
                        a
                    };
                    if hi < t.len() {
                        assert(t[lo] != t[hi]);
                    } else if r[lo] == r[hi] {
                        assert(seen_before(r, r.len() - 1));
                    }
                }
            }
        }
    }
}

/// The repeated hop after which every hop is new is the one `last_repeat`
/// names.
pub proof fn lemma_last_repeat_unique(r: Seq<u64>, j: int)
    requires
        0 <= j < r.len(),
        seen_before(r, j),
        forall|k: int| j < k < r.len() ==> !seen_before(r, k),
    ensures
        last_repeat(r) == j,
{
    lemma_last_repeat(r);
}

/// The cycle that `simplified` removes starts before it ends, at the first
/// occurrence of the hop it ends with.
pub proof fn lemma_cut_bounds(r: Seq<u64>)
    requires
        last_repeat(r) >= 0,
    ensures
        0 <= cut_start(r) < last_repeat(r) < r.len(),
        r[cut_start(r)] == r[last_repeat(r)],
        simplified(r).len() == r.len() - (last_repeat(r) - cut_start(r)),
{
    lemma_last_repeat(r);
    let j = last_repeat(r);
    lemma_first_index(r, r[j]);
    let i = choose|i: int| 0 <= i < j && r[i] == r[j];
    assert(first_index(r, r[j]) <= i);
}

/// A route is its own simplification exactly when no hop occurs twice.
pub proof fn lemma_simplified_fixed_point(r: Seq<u64>)
    ensures
        simplified(r) == r <==> r.no_duplicates(),
{
    lemma_last_repeat(r);
    if last_repeat(r) >= 0 {
        lemma_cut_bounds(r);
    }
}

/// The simplified route is free of repeated hops exactly when the part of
/// the route before the removed cycle is.
pub proof fn lemma_simplified_no_duplicates(r: Seq<u64>)
    ensures
        simplified(r).no_duplicates() <==> (last_repeat(r) < 0 || r.take(
            cut_start(r),
        ).no_duplicates()),
{
    lemma_last_repeat(r);
    if last_repeat(r) >= 0 {
        lemma_cut_bounds(r);
        let j = last_repeat(r);
        let i = cut_start(r);
        let s = simplified(r);
        let p = r.take(i);
        lemma_first_index(r, r[j]);
        if p.no_duplicates() {
            assert forall|a: int, b: int| 0 <= a < s.len() && 0 <= b < s.len() && a
                != b implies s[a] != s[b] by {
                let lo = if a < b {
                    a
                } else {
                    b
                };
                let hi = if a < b {
                    b
                } else {
                    a
                };
                if hi < i {
                    assert(p[lo] != p[hi]);
                } else {
                    let kh = j + (hi - i);
                    assert(s[hi] == r[kh]);
                    let kl = if lo < i {
                        lo
                    } else {
                        j + (lo - i)
                    };
                    assert(s[lo] == r[kl]);
                    assert(kl < kh);
                    if r[kl] == r[kh] {
                        if kh == j {
                            assert(kl < i);
                        } else {
                            assert(seen_before(r, kh));
                        }
                    }
                }
            }
        }
        if s.no_duplicates() {
            assert forall|a: int, b: int| 0 <= a < p.len() && 0 <= b < p.len() && a
                != b implies p[a] != p[b] by {
                assert(s[a] == p[a]);
                assert(s[b] == p[b]);
            }
        }
    }
}

/// Simplifying twice is the same as simplifying once, and the simplified
/// route visits no hop twice, whenever the route holds no repeated hop
/// before the cycle that is removed.
pub proof fn lemma_simplify_idempotent(r: Seq<u64>)
    requires
        last_repeat(r) < 0 || r.take(cut_start(r)).no_duplicates(),
    ensures
        simplified(simplified(r)) == simplified(r),
        simplified(r).no_duplicates(),
{
    lemma_simplified_no_duplicates(r);
    lemma_simplified_fixed_point(simplified(r));
}

/// Removes the last cycle from an observed hop sequence. The first pass
/// records where each hop first occurs; the second scans from the tail for
/// a hop that occurred earlier and splices out what lies in between.
pub fn simplify_route(input: Vec<u64>) -> (out: Vec<u64>)
    ensures
        out@ == simplified(input@),
{
    let n = input.len();
    let mut m: HashMap<u64, usize> = HashMap::new();
    let mut index: usize = 0;
    while index < n
        invariant
            n == input.len(),
            index <= n,
            forall|x: u64| #[trigger]
                m@.contains_key(x) ==> m@[x] < index && input@[m@[x] as int] == x && (forall|
                    k: int,
                | 0 <= k < m@[x] ==> input@[k] != x),
            forall|k: int| 0 <= k < index ==> m@.contains_key(#[trigger] input@[k]),
        decreases n - index,
    {
        let x = input[index];
        if !m.contains_key(&x) {
            m.insert(x, index);
        }
        index += 1;
    }
    let mut j: usize = n;
    while j > 0
        invariant
            n == input.len(),
            j <= n,
            forall|x: u64| #[trigger]
                m@.contains_key(x) ==> m@[x] < n && input@[m@[x] as int] == x && (forall|k: int|
                    0 <= k < m@[x] ==> input@[k] != x),
            forall|k: int| 0 <= k < n ==> m@.contains_key(#[trigger] input@[k]),
            forall|k: int| j <= k < n ==> !seen_before(input@, k),
        decreases j,
    {
        j -= 1;
        let x = input[j];
        assert(m@.contains_key(input@[j as int]));
        let found = m.get(&x);
        let first: usize = match found {
            Some(i) => *i,
            None => j,
        };
        assert(first == m@[x]);
        if first < j {
            proof {
                assert(seen_before(input@, j as int));
                lemma_last_repeat_unique(input@, j as int);
                lemma_first_index_unique(input@, x, first as int);
            }
            let mut out: Vec<u64> = Vec::new();
            let mut k: usize = 0;
            while k < first
                invariant
                    k <= first < n,
                    n == input.len(),
                    out@ == input@.take(k as int),
                decreases first - k,
            {
                out.push(input[k]);
                k += 1;
            }
            let mut k: usize = j;
            while k < n
                invariant
                    j <= k <= n,
                    n == input.len(),
                    out@ == input@.take(first as int) + input@.subrange(j as int, k as int),
                decreases n - k,
            {
                out.push(input[k]);
                k += 1;
            }
            assert(input@.subrange(j as int, n as int) == input@.skip(j as int));
            return out;
        }
        proof {
            if seen_before(input@, j as int) {
                let i = choose|i: int| 0 <= i < j && input@[i] == input@[j as int];
                assert(false);
            }
        }
    }
    proof {
        lemma_last_repeat(input@);
        if last_repeat(input@) >= 0 {
            assert(seen_before(input@, last_repeat(input@)));
        }
    }
    input
}

} // verus!
