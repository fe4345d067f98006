//! What a k-bucket and a node table are as values, what their operations
//! make of them, and what holds of that.

use super::base::bit_length;
use super::base::lemma_bit_length_interval;
use super::base::lemma_xor_injective;
use super::base::DHTNodeView;
use vstd::prelude::*;

verus! {

/// Entries of a bucket, oldest first, and the number it can take.
pub struct BucketView {
    pub entries: Seq<DHTNodeView>,
    pub capacity: nat,
}

/// XOR distance between two identifiers.
pub open spec fn distance(a: u64, b: u64) -> u64 {
    a ^ b
}

/// Whether some entry has the identifier `id`.
pub open spec fn has_id(s: Seq<DHTNodeView>, id: u64) -> bool {
    exists|i: int| 0 <= i < s.len() && s[i].id == id
}

/// No two entries share an identifier.
pub open spec fn distinct_ids(s: Seq<DHTNodeView>) -> bool {
    forall|i: int, j: int| 0 <= i < j < s.len() ==> s[i].id != s[j].id
}

/// The entries whose identifier is not `id`, in their order.
pub open spec fn without_id(s: Seq<DHTNodeView>, id: u64) -> Seq<DHTNodeView> {
    s.filter(|n: DHTNodeView| n.id != id)
}

/// A bucket is well formed when it has room for at least one node, holds no
/// more than it can take and holds each identifier once.
pub open spec fn bucket_wf(b: BucketView) -> bool {
    &&& b.capacity > 0
    &&& b.entries.len() <= b.capacity
    &&& distinct_ids(b.entries)
}

/// What `update` does to the entries of a bucket, and what it answers: a
/// known node moves to the back, a new node is appended while there is
/// room, and a full bucket is left as it is.
pub open spec fn bucket_update(b: BucketView, node: DHTNodeView) -> (BucketView, bool) {
    if has_id(b.entries, node.id) {
        (BucketView { entries: without_id(b.entries, node.id).push(node), ..b }, true)
    } else if b.entries.len() == b.capacity {
        (b, false)
    } else {
        (BucketView { entries: b.entries.push(node), ..b }, true)
    }
}

/// `s` with `e` put behind the last entry that is not farther from `target`
/// than `e` is.
pub open spec fn insert_sorted(s: Seq<DHTNodeView>, e: DHTNodeView, target: u64) -> Seq<
    DHTNodeView,
>
    decreases s.len(),
{
    if s.len() > 0 && distance(target, e.id) < distance(target, s.last().id) {
        insert_sorted(s.drop_last(), e, target).push(s.last())
    } else {
        s.push(e)
    }
}

/// The entries in ascending order of their XOR distance to `target`; entries
/// at the same distance keep their order.
pub open spec fn sort_by_distance(s: Seq<DHTNodeView>, target: u64) -> Seq<DHTNodeView>
    decreases s.len(),
{
    if s.len() == 0 {
        Seq::empty()
    } else {
        insert_sorted(sort_by_distance(s.drop_last(), target), s.last(), target)
    }
}

/// The up to `count` entries nearest to `target`, nearest first.
pub open spec fn closest(s: Seq<DHTNodeView>, target: u64, count: nat) -> Seq<DHTNodeView> {
    let sorted = sort_by_distance(s, target);
    if count < sorted.len() {
        sorted.take(count as int)
    } else {
        sorted
    }
}

/// Distances to `target` never decrease along `s`.
pub open spec fn ascending(s: Seq<DHTNodeView>, target: u64) -> bool {
    forall|i: int, j: int|
        0 <= i <= j < s.len() ==> distance(target, s[i].id) <= distance(target, s[j].id)
}

/// Removing an identifier leaves only other identifiers, keeps distinct
/// identifiers distinct, and shortens a sequence that held it.
pub proof fn lemma_without_id(s: Seq<DHTNodeView>, id: u64)
    ensures
        !has_id(without_id(s, id), id),
        without_id(s, id).len() <= s.len(),
        has_id(s, id) ==> without_id(s, id).len() < s.len(),
        !has_id(s, id) ==> without_id(s, id) == s,
        distinct_ids(s) ==> distinct_ids(without_id(s, id)),
        forall|x: u64| has_id(without_id(s, id), x) ==> has_id(s, x),
        forall|x: u64| x != id && has_id(s, x) ==> has_id(without_id(s, id), x),
    decreases s.len(),
{
    reveal(Seq::filter);
    let f = without_id(s, id);
    if s.len() > 0 {
        let t = s.drop_last();
        let ft = without_id(t, id);
        lemma_without_id(t, id);
        let last = s.last();
        if has_id(f, id) {
            let i = choose|i: int| 0 <= i < f.len() && f[i].id == id;
            if i < ft.len() {
                assert(ft[i].id == id);
            }
            assert(false);
        }
        if has_id(s, id) && last.id != id {
            let i = choose|i: int| 0 <= i < s.len() && s[i].id == id;
            assert(t[i].id == id);
        }
        if !has_id(s, id) {
            if has_id(t, id) {
                let i = choose|i: int| 0 <= i < t.len() && t[i].id == id;
                assert(s[i].id == id);
            }
            assert(s[s.len() - 1].id != id);
            assert(f =~= s);
        }
        assert forall|x: u64| has_id(f, x) implies has_id(s, x) by {
            let i = choose|i: int| 0 <= i < f.len() && f[i].id == x;
            if i < ft.len() {
                assert(ft[i].id == x);
                assert(has_id(t, x));
                let j = choose|j: int| 0 <= j < t.len() && t[j].id == x;
                assert(s[j].id == x);
            } else {
                assert(s[s.len() - 1].id == x);
            }
        }
        assert forall|x: u64| x != id && has_id(s, x) implies has_id(f, x) by {
            let i = choose|i: int| 0 <= i < s.len() && s[i].id == x;
            if i < t.len() {
                assert(t[i].id == x);
                assert(has_id(t, x));
                assert(has_id(ft, x));
                let j = choose|j: int| 0 <= j < ft.len() && ft[j].id == x;
                assert(f[j].id == x);
            } else {
                assert(f[f.len() - 1].id == x);
            }
        }
        if distinct_ids(s) {
            assert(distinct_ids(t)) by {
                assert forall|i: int, j: int| 0 <= i < j < t.len() implies t[i].id != t[j].id by {
                    assert(s[i].id != s[j].id);
                }
            }
            assert forall|i: int, j: int| 0 <= i < j < f.len() implies f[i].id != f[j].id by {
                if j == ft.len() {
                    assert(ft[i].id == f[i].id);
                    assert(has_id(ft, f[i].id));
                    assert(has_id(t, f[i].id));
                    let k = choose|k: int| 0 <= k < t.len() && t[k].id == f[i].id;
                    assert(s[k].id != s[s.len() - 1].id);
                }
            }
        }
    } else {
        assert(f =~= s);
    }
}

/// An update keeps a bucket well formed. When it is accepted the node sits
/// at the back, which is the place of the most recently seen node; it is
/// accepted exactly when the node is known or there is room; when it is
/// refused the bucket stays as it was.
pub proof fn lemma_bucket_update(b: BucketView, node: DHTNodeView)
    requires
        bucket_wf(b),
    ensures
        bucket_wf(bucket_update(b, node).0),
        bucket_update(b, node).0.capacity == b.capacity,
        bucket_update(b, node).1 <==> has_id(b.entries, node.id) || b.entries.len() < b.capacity,
        bucket_update(b, node).1 ==> bucket_update(b, node).0.entries.last() == node,
        !bucket_update(b, node).1 ==> bucket_update(b, node).0 == b,
        forall|x: u64|
            has_id(bucket_update(b, node).0.entries, x) <==> has_id(b.entries, x) || (x == node.id
                && bucket_update(b, node).1),
{
    lemma_without_id(b.entries, node.id);
    let after = bucket_update(b, node).0.entries;
    let base = if has_id(b.entries, node.id) {
        without_id(b.entries, node.id)
    } else {
        b.entries
    };
    if bucket_update(b, node).1 {
        assert(after == base.push(node));
        assert(!has_id(base, node.id));
        assert forall|i: int, j: int| 0 <= i < j < after.len() implies after[i].id
            != after[j].id by {
            if j == base.len() {
                assert(base[i].id == after[i].id);
            } else {
                assert(base[i].id != base[j].id);
            }
        }
        assert forall|x: u64| has_id(after, x) <==> has_id(b.entries, x) || x == node.id by {
            if has_id(after, x) {
                let i = choose|i: int| 0 <= i < after.len() && after[i].id == x;
                if i < base.len() {
                    assert(base[i].id == x);
                    assert(has_id(base, x));
                }
            }
            if has_id(b.entries, x) && x != node.id {
                assert(has_id(base, x));
                let i = choose|i: int| 0 <= i < base.len() && base[i].id == x;
                assert(after[i].id == x);
            }
            if x == node.id {
                assert(after[after.len() - 1].id == x);
            }
        }
    }
}

/// A full bucket that does not know a node refuses it and stays unchanged.
pub proof fn lemma_bucket_full_rejects(b: BucketView, node: DHTNodeView)
    requires
        b.entries.len() == b.capacity,
        !has_id(b.entries, node.id),
    ensures
        bucket_update(b, node) == (b, false),
{
}

/// The bucket after a series of updates, first to last.
pub open spec fn bucket_after(b: BucketView, nodes: Seq<DHTNodeView>) -> BucketView
    decreases nodes.len(),
{
    if nodes.len() == 0 {
        b
    } else {
        bucket_update(bucket_after(b, nodes.drop_last()), nodes.last()).0
    }
}

/// Whatever is offered to a bucket, in whatever order, it never holds more
/// than its capacity nor an identifier twice, and a node that was just
/// accepted is its last entry.
pub proof fn lemma_bucket_after(b: BucketView, nodes: Seq<DHTNodeView>)
    requires
        bucket_wf(b),
    ensures
        bucket_wf(bucket_after(b, nodes)),
        bucket_after(b, nodes).capacity == b.capacity,
        bucket_after(b, nodes).entries.len() <= b.capacity,
        distinct_ids(bucket_after(b, nodes).entries),
        nodes.len() > 0 && bucket_update(bucket_after(b, nodes.drop_last()), nodes.last()).1
            ==> bucket_after(b, nodes).entries.last() == nodes.last(),
    decreases nodes.len(),
{
    if nodes.len() > 0 {
        lemma_bucket_after(b, nodes.drop_last());
        lemma_bucket_update(bucket_after(b, nodes.drop_last()), nodes.last());
    }
}

/// Sorting by distance keeps every entry, once each, and puts them in
/// ascending order of distance.
pub proof fn lemma_sort_by_distance(s: Seq<DHTNodeView>, target: u64)
    ensures
        sort_by_distance(s, target).len() == s.len(),
        sort_by_distance(s, target).to_multiset() == s.to_multiset(),
        ascending(sort_by_distance(s, target), target),
    decreases s.len(),
{
    broadcast use vstd::seq_lib::group_to_multiset_ensures;

    if s.len() > 0 {
        let t = s.drop_last();
        lemma_sort_by_distance(t, target);
        lemma_insert_sorted(sort_by_distance(t, target), s.last(), target);
        assert(s =~= t.push(s.last()));
    }
}

/// Inserting into an ascending sequence keeps it ascending and adds exactly
/// the new entry.
pub proof fn lemma_insert_sorted(s: Seq<DHTNodeView>, e: DHTNodeView, target: u64)
    requires
        ascending(s, target),
    ensures
        insert_sorted(s, e, target).len() == s.len() + 1,
        insert_sorted(s, e, target).to_multiset() == s.to_multiset().insert(e),
        ascending(insert_sorted(s, e, target), target),
        forall|i: int|
            0 <= i < insert_sorted(s, e, target).len() ==> insert_sorted(s, e, target)[i] == e
                || s.contains(#[trigger] insert_sorted(s, e, target)[i]),
    decreases s.len(),
{
    broadcast use vstd::seq_lib::group_to_multiset_ensures;

    let r = insert_sorted(s, e, target);
    if s.len() > 0 && distance(target, e.id) < distance(target, s.last().id) {
        let t = s.drop_last();
        assert(ascending(t, target)) by {
            assert forall|i: int, j: int| 0 <= i <= j < t.len() implies distance(target, t[i].id)
                <= distance(target, t[j].id) by {
                assert(t[i] == s[i] && t[j] == s[j]);
            }
        }
        lemma_insert_sorted(t, e, target);
        let rt = insert_sorted(t, e, target);
        assert(s =~= t.push(s.last()));
        assert(r.to_multiset() =~= s.to_multiset().insert(e));
        assert forall|i: int| 0 <= i < r.len() implies r[i] == e || s.contains(
            #[trigger] r[i],
        ) by {
            if i < rt.len() {
                assert(r[i] == rt[i]);
                if rt[i] != e {
                    assert(t.contains(rt[i]));
                    let k = choose|k: int| 0 <= k < t.len() && t[k] == rt[i];
                    assert(s[k] == rt[i]);
                }
            } else {
                assert(s[s.len() - 1] == r[i]);
            }
        }
        assert forall|i: int, j: int| 0 <= i <= j < r.len() implies distance(target, r[i].id)
            <= distance(target, r[j].id) by {
            if j < rt.len() {
                assert(r[i] == rt[i] && r[j] == rt[j]);
            } else {
                if i < rt.len() {
                    assert(r[i] == rt[i]);
                    if rt[i] != e {
                        assert(t.contains(rt[i]));
                        let k = choose|k: int| 0 <= k < t.len() && t[k] == rt[i];
                        assert(s[k] == rt[i]);
                        assert(distance(target, s[k].id) <= distance(
                            target,
                            s[s.len() - 1].id,
                        ));
                    }
                }
            }
        }
    } else {
        assert forall|i: int| 0 <= i < r.len() implies r[i] == e || s.contains(
            #[trigger] r[i],
        ) by {
            if i < s.len() {
                assert(s[i] == r[i]);
            }
        }
        assert forall|i: int, j: int| 0 <= i <= j < r.len() implies distance(target, r[i].id)
            <= distance(target, r[j].id) by {
            if j < s.len() {
                assert(r[i] == s[i] && r[j] == s[j]);
            } else if i < s.len() {
                assert(r[i] == s[i]);
                assert(distance(target, s[i].id) <= distance(target, s[s.len() - 1].id));
            }
        }
    }
}

/// The nearest entries come in ascending order of distance, there are as
/// many of them as were asked for, or as there are, each of them is an
/// entry, and no entry that is left out is nearer than one of them.
pub proof fn lemma_closest(s: Seq<DHTNodeView>, target: u64, count: nat)
    ensures
        ascending(closest(s, target, count), target),
        closest(s, target, count).len() == if count < s.len() {
            count
        } else {
            s.len()
        },
        forall|i: int|
            0 <= i < closest(s, target, count).len() ==> s.contains(
                #[trigger] closest(s, target, count)[i],
            ),
        forall|i: int, j: int|
            0 <= i < closest(s, target, count).len() && 0 <= j < s.len() && !closest(
                s,
                target,
                count,
            ).contains(s[j]) ==> distance(target, #[trigger] closest(s, target, count)[i].id)
                <= distance(target, #[trigger] s[j].id),
{
    broadcast use vstd::seq_lib::group_to_multiset_ensures;

    lemma_sort_by_distance(s, target);
    let sorted = sort_by_distance(s, target);
    let c = closest(s, target, count);
    assert forall|i: int, j: int| 0 <= i <= j < c.len() implies distance(target, c[i].id)
        <= distance(target, c[j].id) by {
        assert(c[i] == sorted[i] && c[j] == sorted[j]);
    }
    assert forall|i: int| 0 <= i < c.len() implies s.contains(#[trigger] c[i]) by {
        assert(c[i] == sorted[i]);
        assert(sorted.to_multiset().count(sorted[i]) > 0);
        assert(s.to_multiset().count(sorted[i]) > 0);
    }
    assert forall|i: int, j: int|
        0 <= i < c.len() && 0 <= j < s.len() && !c.contains(s[j]) implies distance(
        target,
        #[trigger] c[i].id,
    ) <= distance(target, #[trigger] s[j].id) by {
        assert(s.to_multiset().count(s[j]) > 0);
        assert(sorted.to_multiset().count(s[j]) > 0);
        assert(sorted.contains(s[j]));
        let p = choose|p: int| 0 <= p < sorted.len() && sorted[p] == s[j];
        if p < c.len() {
            assert(c[p] == s[j]);
        }
        assert(c[i] == sorted[i]);
    }
}

/// Inserting a new identifier among distinct ones keeps them distinct.
pub proof fn lemma_insert_sorted_ids(s: Seq<DHTNodeView>, e: DHTNodeView, target: u64)
    ensures
        forall|x: u64|
            #![trigger has_id(insert_sorted(s, e, target), x)]
            #![trigger has_id(s, x)]
            has_id(insert_sorted(s, e, target), x) <==> has_id(s, x) || x == e.id,
        distinct_ids(s) && !has_id(s, e.id) ==> distinct_ids(insert_sorted(s, e, target)),
    decreases s.len(),
{
    let r = insert_sorted(s, e, target);
    if s.len() > 0 && distance(target, e.id) < distance(target, s.last().id) {
        let t = s.drop_last();
        let rt = insert_sorted(t, e, target);
        lemma_insert_sorted_ids(t, e, target);
        assert(r == rt.push(s.last()));
        assert forall|x: u64| has_id(r, x) <==> has_id(s, x) || x == e.id by {
            if has_id(r, x) {
                let i = choose|i: int| 0 <= i < r.len() && r[i].id == x;
                if i < rt.len() {
                    assert(rt[i].id == x);
                    assert(has_id(rt, x));
                    if x != e.id {
                        assert(has_id(t, x));
                        let k = choose|k: int| 0 <= k < t.len() && t[k].id == x;
                        assert(s[k].id == x);
                    }
                } else {
                    assert(s[s.len() - 1].id == x);
                }
            }
            if has_id(s, x) {
                let k = choose|k: int| 0 <= k < s.len() && s[k].id == x;
                if k < t.len() {
                    assert(t[k].id == x);
                    assert(has_id(t, x));
                    assert(has_id(rt, x));
                    let i = choose|i: int| 0 <= i < rt.len() && rt[i].id == x;
                    assert(r[i].id == x);
                } else {
                    assert(r[r.len() - 1].id == x);
                }
            }
            if x == e.id {
                assert(has_id(rt, x));
                let i = choose|i: int| 0 <= i < rt.len() && rt[i].id == x;
                assert(r[i].id == x);
            }
        }
        if distinct_ids(s) && !has_id(s, e.id) {
            assert(distinct_ids(t)) by {
                assert forall|i: int, j: int| 0 <= i < j < t.len() implies t[i].id != t[j].id by {
                    assert(s[i].id != s[j].id);
                }
            }
            if has_id(t, e.id) {
                let k = choose|k: int| 0 <= k < t.len() && t[k].id == e.id;
                assert(s[k].id == e.id);
            }
            assert forall|i: int, j: int| 0 <= i < j < r.len() implies r[i].id != r[j].id by {
                if j < rt.len() {
                    assert(rt[i].id != rt[j].id);
                } else {
                    assert(rt[i].id == r[i].id);
                    assert(has_id(rt, r[i].id));
                    if r[i].id == s.last().id {
                        assert(s[s.len() - 1].id == r[i].id);
                        assert(has_id(s, r[i].id));
                        assert(has_id(t, r[i].id));
                        let k = choose|k: int| 0 <= k < t.len() && t[k].id == r[i].id;
                        assert(s[k].id != s[s.len() - 1].id);
                    }
                }
            }
        }
    } else {
        assert forall|x: u64| has_id(r, x) <==> has_id(s, x) || x == e.id by {
            if has_id(r, x) {
                let i = choose|i: int| 0 <= i < r.len() && r[i].id == x;
                if i < s.len() {
                    assert(s[i].id == x);
                }
            }
            if has_id(s, x) {
                let k = choose|k: int| 0 <= k < s.len() && s[k].id == x;
                assert(r[k].id == x);
            }
            if x == e.id {
                assert(r[r.len() - 1].id == x);
            }
        }
        if distinct_ids(s) && !has_id(s, e.id) {
            assert forall|i: int, j: int| 0 <= i < j < r.len() implies r[i].id != r[j].id by {
                if j < s.len() {
                    assert(s[i].id != s[j].id);
                } else {
                    assert(s[i].id == r[i].id);
                }
            }
        }
    }
}

/// Among entries with distinct identifiers the order by distance is strict:
/// no two of the nearest entries are equally far from the target, so the
/// order in which the entries were taken in does not show in the result.
pub proof fn lemma_closest_strict(s: Seq<DHTNodeView>, target: u64, count: nat)
    requires
        distinct_ids(s),
    ensures
        distinct_ids(sort_by_distance(s, target)),
        forall|x: u64| has_id(sort_by_distance(s, target), x) <==> has_id(s, x),
        forall|i: int, j: int|
            0 <= i < j < closest(s, target, count).len() ==> distance(
                target,
                closest(s, target, count)[i].id,
            ) < distance(target, closest(s, target, count)[j].id),
    decreases s.len(),
{
    let sorted = sort_by_distance(s, target);
    let c = closest(s, target, count);
    if s.len() > 0 {
        let t = s.drop_last();
        assert(distinct_ids(t)) by {
            assert forall|i: int, j: int| 0 <= i < j < t.len() implies t[i].id != t[j].id by {
                assert(s[i].id != s[j].id);
            }
        }
        lemma_closest_strict(t, target, 0);
        let st = sort_by_distance(t, target);
        lemma_insert_sorted_ids(st, s.last(), target);
        if has_id(t, s.last().id) {
            let k = choose|k: int| 0 <= k < t.len() && t[k].id == s.last().id;
            assert(s[k].id != s[s.len() - 1].id);
        }
        assert forall|x: u64| has_id(sorted, x) <==> has_id(s, x) by {
            if has_id(t, x) {
                let k = choose|k: int| 0 <= k < t.len() && t[k].id == x;
                assert(s[k].id == x);
            }
            if has_id(s, x) && x != s.last().id {
                let k = choose|k: int| 0 <= k < s.len() && s[k].id == x;
                assert(t[k].id == x);
            }
            if x == s.last().id {
                assert(s[s.len() - 1].id == x);
            }
        }
    }
    lemma_sort_by_distance(s, target);
    assert forall|i: int, j: int| 0 <= i < j < c.len() implies distance(target, c[i].id)
        < distance(target, c[j].id) by {
        assert(c[i] == sorted[i] && c[j] == sorted[j]);
        assert(sorted[i].id != sorted[j].id);
        assert(distance(target, sorted[i].id) <= distance(target, sorted[j].id));
        lemma_xor_injective(sorted[i].id, sorted[j].id, target);
    }
}

/// The local identifier, the number of buckets, and the buckets by index.
pub struct TableView {
    pub this_id: u64,
    pub hash_size: nat,
    pub buckets: Seq<BucketView>,
}

/// A table that knows nobody: `hash_size` empty buckets of `bucket_size`
/// nodes each.
pub open spec fn empty_table(this_id: u64, bucket_size: nat, hash_size: nat) -> TableView {
    TableView {
        this_id,
        hash_size,
        buckets: Seq::new(
            hash_size,
            |b: int| BucketView { entries: Seq::<DHTNodeView>::empty(), capacity: bucket_size },
        ),
    }
}

/// The bucket in which a table of `this_id` keeps `id`: the number of bits
/// of their XOR distance, less one.
pub open spec fn bucket_index(this_id: u64, id: u64) -> int {
    bit_length(distance(this_id, id)) - 1
}

/// The bucket of index `b` is that of the identifiers whose distance from
/// the local identifier lies in `[2^b, 2^(b+1))`.
pub proof fn lemma_bucket_range(this_id: u64, id: u64, b: nat)
    requires
        b < 64,
    ensures
        bucket_index(this_id, id) == b <==> (1u64 << b) <= distance(this_id, id) && (b < 63
            ==> distance(this_id, id) < (1u64 << ((b + 1) as nat))),
{
    lemma_bit_length_interval(distance(this_id, id), b);
}

/// A table is well formed when it has as many buckets as the identifiers
/// have bits, each bucket is well formed, and each node sits in the bucket
/// of its distance. It then never holds the local identifier.
pub open spec fn table_wf(t: TableView) -> bool {
    &&& t.buckets.len() == t.hash_size
    &&& forall|b: int| 0 <= b < t.buckets.len() ==> bucket_wf(#[trigger] t.buckets[b])
    &&& forall|b: int, i: int|
        0 <= b < t.buckets.len() && 0 <= i < t.buckets[b].entries.len() ==> bucket_index(
            t.this_id,
            #[trigger] t.buckets[b].entries[i].id,
        ) == b
}

/// Whether a table can be asked to keep `id`: it is not the local
/// identifier, and its distance fits the number of buckets.
pub open spec fn table_admits(t: TableView, id: u64) -> bool {
    id != t.this_id && bucket_index(t.this_id, id) < t.hash_size
}

/// What `update` does to a table and what it answers: the update of the
/// bucket of the node's distance.
pub open spec fn table_update(t: TableView, node: DHTNodeView) -> (TableView, bool) {
    let b = bucket_index(t.this_id, node.id);
    let (bucket, accepted) = bucket_update(t.buckets[b], node);
    (TableView { buckets: t.buckets.update(b, bucket), ..t }, accepted)
}

/// All entries of the buckets, bucket after bucket.
pub open spec fn all_entries(buckets: Seq<BucketView>) -> Seq<DHTNodeView>
    decreases buckets.len(),
{
    if buckets.len() == 0 {
        Seq::empty()
    } else {
        all_entries(buckets.drop_last()) + buckets.last().entries
    }
}

/// A bucket that holds as many nodes as it can take.
pub open spec fn is_full(b: BucketView) -> bool {
    b.entries.len() > 0 && b.entries.len() == b.capacity
}

/// A full bucket without its oldest node; any other bucket as it is.
pub open spec fn without_oldest(b: BucketView) -> BucketView {
    if is_full(b) {
        BucketView { entries: b.entries.drop_first(), ..b }
    } else {
        b
    }
}

/// The oldest node of each full bucket, by bucket index.
pub open spec fn oldest_of_full(buckets: Seq<BucketView>) -> Seq<DHTNodeView>
    decreases buckets.len(),
{
    if buckets.len() == 0 {
        Seq::empty()
    } else if is_full(buckets.last()) {
        oldest_of_full(buckets.drop_last()).push(buckets.last().entries[0])
    } else {
        oldest_of_full(buckets.drop_last())
    }
}

/// What `pop_oldest` leaves of a table, and what it hands out.
pub open spec fn table_pop_oldest(t: TableView) -> (TableView, Seq<DHTNodeView>) {
    (
        TableView {
            buckets: Seq::new(t.buckets.len(), |b: int| without_oldest(t.buckets[b])),
            ..t
        },
        oldest_of_full(t.buckets),
    )
}

/// An accepted update leaves the table well formed with the node at the
/// back of the bucket of its distance; no other bucket changes.
pub proof fn lemma_table_update(t: TableView, node: DHTNodeView)
    requires
        table_wf(t),
        table_admits(t, node.id),
    ensures
        table_wf(table_update(t, node).0),
        table_update(t, node).0.this_id == t.this_id,
        table_update(t, node).0.hash_size == t.hash_size,
        0 <= bucket_index(t.this_id, node.id) < t.buckets.len(),
        table_update(t, node).1 ==> table_update(t, node).0.buckets[bucket_index(
            t.this_id,
            node.id,
        )].entries.last() == node,
        !table_update(t, node).1 ==> table_update(t, node).0 == t,
        forall|b: int|
            0 <= b < t.buckets.len() && b != bucket_index(t.this_id, node.id) ==> table_update(
                t,
                node,
            ).0.buckets[b] == t.buckets[b],
{
    let b = bucket_index(t.this_id, node.id);
    assert(distance(t.this_id, node.id) != 0) by {
        let x = t.this_id;
        let y = node.id;
        assert(x != y ==> x ^ y != 0) by (bit_vector);
    }
    let old_bucket = t.buckets[b];
    assert(bucket_wf(old_bucket));
    lemma_bucket_update(old_bucket, node);
    let after = table_update(t, node).0;
    let new_bucket = after.buckets[b];
    assert forall|c: int| 0 <= c < after.buckets.len() implies bucket_wf(
        #[trigger] after.buckets[c],
    ) by {
        if c != b {
            assert(after.buckets[c] == t.buckets[c]);
        }
    }
    assert forall|c: int, i: int|
        0 <= c < after.buckets.len() && 0 <= i < after.buckets[c].entries.len() implies bucket_index(
        after.this_id,
        #[trigger] after.buckets[c].entries[i].id,
    ) == c by {
        if c != b {
            assert(after.buckets[c] == t.buckets[c]);
        } else {
            let id = new_bucket.entries[i].id;
            assert(has_id(new_bucket.entries, id));
            if id != node.id {
                assert(has_id(old_bucket.entries, id));
                let k = choose|k: int| 0 <= k < old_bucket.entries.len() && old_bucket.entries[k].id
                    == id;
                assert(bucket_index(t.this_id, t.buckets[b].entries[k].id) == b);
            }
        }
    }
    if !table_update(t, node).1 {
        assert(after.buckets =~= t.buckets);
    }
}

/// The entries of a well-formed table are those of its buckets, and no two
/// share an identifier.
pub proof fn lemma_all_entries(t: TableView, n: int)
    requires
        table_wf(t),
        0 <= n <= t.buckets.len(),
    ensures
        distinct_ids(all_entries(t.buckets.take(n))),
        forall|x: u64|
            has_id(all_entries(t.buckets.take(n)), x) <==> 0 <= bucket_index(t.this_id, x) < n
                && has_id(t.buckets[bucket_index(t.this_id, x)].entries, x),
    decreases n,
{
    let cur = t.buckets.take(n);
    let all = all_entries(cur);
    if n > 0 {
        let prev = t.buckets.take(n - 1);
        let before = all_entries(prev);
        let last = t.buckets[n - 1].entries;
        lemma_all_entries(t, n - 1);
        assert(cur.drop_last() == prev);
        assert(cur.last() == t.buckets[n - 1]);
        assert(all == before + last);
        assert(bucket_wf(t.buckets[n - 1]));
        assert forall|x: u64|
            has_id(all, x) <==> 0 <= bucket_index(t.this_id, x) < n && has_id(
                t.buckets[bucket_index(t.this_id, x)].entries,
                x,
            ) by {
            if has_id(all, x) {
                let i = choose|i: int| 0 <= i < all.len() && all[i].id == x;
                if i < before.len() {
                    assert(before[i].id == x);
                    assert(has_id(before, x));
                } else {
                    assert(last[i - before.len()].id == x);
                    assert(bucket_index(t.this_id, t.buckets[n - 1].entries[i - before.len()].id)
                        == n - 1);
                }
            }
            let b = bucket_index(t.this_id, x);
            if 0 <= b < n && has_id(t.buckets[b].entries, x) {
                if b < n - 1 {
                    assert(has_id(before, x));
                    let i = choose|i: int| 0 <= i < before.len() && before[i].id == x;
                    assert(all[i].id == x);
                } else {
                    let i = choose|i: int| 0 <= i < last.len() && last[i].id == x;
                    assert(all[before.len() + i].id == x);
                }
            }
        }
        assert forall|i: int, j: int| 0 <= i < j < all.len() implies all[i].id != all[j].id by {
            if j < before.len() {
                assert(before[i].id != before[j].id);
            } else if i >= before.len() {
                assert(last[i - before.len()].id != last[j - before.len()].id);
            } else {
                assert(before[i].id == all[i].id);
                assert(has_id(before, all[i].id));
                assert(bucket_index(t.this_id, t.buckets[n - 1].entries[j - before.len()].id) == n
                    - 1);
            }
        }
    } else {
        assert(cur =~= Seq::<BucketView>::empty());
    }
}

/// Taking the oldest node out of every full bucket leaves a well-formed
/// table of the same shape.
pub proof fn lemma_table_pop_oldest(t: TableView)
    requires
        table_wf(t),
    ensures
        table_wf(table_pop_oldest(t).0),
        table_pop_oldest(t).0.this_id == t.this_id,
        table_pop_oldest(t).0.hash_size == t.hash_size,
{
    let after = table_pop_oldest(t).0;
    assert forall|b: int| 0 <= b < after.buckets.len() implies bucket_wf(
        #[trigger] after.buckets[b],
    ) by {
        let old_bucket = t.buckets[b];
        assert(bucket_wf(old_bucket));
        let e = after.buckets[b].entries;
        assert forall|i: int, j: int| 0 <= i < j < e.len() implies e[i].id != e[j].id by {
            if is_full(old_bucket) {
                assert(old_bucket.entries[i + 1].id != old_bucket.entries[j + 1].id);
            } else {
                assert(old_bucket.entries[i].id != old_bucket.entries[j].id);
            }
        }
    }
    assert forall|b: int, i: int|
        0 <= b < after.buckets.len() && 0 <= i < after.buckets[b].entries.len() implies bucket_index(
        after.this_id,
        #[trigger] after.buckets[b].entries[i].id,
    ) == b by {
        if is_full(t.buckets[b]) {
            assert(bucket_index(t.this_id, t.buckets[b].entries[i + 1].id) == b);
        } else {
            assert(bucket_index(t.this_id, t.buckets[b].entries[i].id) == b);
        }
    }
}

/// A table of empty buckets holds no node.
pub proof fn lemma_empty_table(t: TableView, n: int)
    requires
        0 <= n <= t.buckets.len(),
        forall|b: int| 0 <= b < t.buckets.len() ==> (#[trigger] t.buckets[b]).entries.len() == 0,
    ensures
        all_entries(t.buckets.take(n)).len() == 0,
    decreases n,
{
    if n > 0 {
        lemma_empty_table(t, n - 1);
        assert(t.buckets.take(n).drop_last() == t.buckets.take(n - 1));
        assert(t.buckets.take(n).last() == t.buckets[n - 1]);
    } else {
        assert(t.buckets.take(n) =~= Seq::<BucketView>::empty());
    }
}

/// What `pop_oldest` hands out was held by the table.
pub proof fn lemma_oldest_known(t: TableView, n: int)
    requires
        table_wf(t),
        0 <= n <= t.buckets.len(),
    ensures
        forall|i: int|
            0 <= i < oldest_of_full(t.buckets.take(n)).len() ==> has_id(
                all_entries(t.buckets),
                #[trigger] oldest_of_full(t.buckets.take(n))[i].id,
            ),
    decreases n,
{
    let cur = t.buckets.take(n);
    if n > 0 {
        lemma_oldest_known(t, n - 1);
        assert(cur.drop_last() == t.buckets.take(n - 1));
        assert(cur.last() == t.buckets[n - 1]);
        let popped = oldest_of_full(cur);
        lemma_all_entries(t, t.buckets.len() as int);
        assert(t.buckets.take(t.buckets.len() as int) == t.buckets);
        assert forall|i: int| 0 <= i < popped.len() implies has_id(
            all_entries(t.buckets),
            #[trigger] popped[i].id,
        ) by {
            if is_full(t.buckets[n - 1]) && i == popped.len() - 1 {
                let e = t.buckets[n - 1].entries;
                assert(e[0].id == popped[i].id);
                assert(has_id(e, popped[i].id));
                assert(bucket_index(t.this_id, t.buckets[n - 1].entries[0].id) == n - 1);
            } else {
                assert(popped[i] == oldest_of_full(t.buckets.take(n - 1))[i]);
            }
        }
    } else {
        assert(cur =~= Seq::<BucketView>::empty());
    }
}

} // verus!
