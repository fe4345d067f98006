//! Node table after Kademlia.
//!
//! Known nodes are kept in k-buckets, one for each bit of an identifier: the
//! bucket of index `b` holds the nodes whose XOR distance from the local
//! identifier has `b + 1` bits. A full bucket takes no new node; it is up to
//! the caller to make room with `pop_oldest`.

use std::collections::VecDeque;
use std::fmt::Debug;
use super::base::bit_length;
use super::base::lemma_bit_length_max;
use super::base::DHTNode;
use super::base::DHTNodeView;
use super::base::GenericId;
use super::model::all_entries;
use super::model::bucket_index;
use super::model::bucket_update;
use super::model::bucket_wf;
use super::model::closest;
use super::model::distance;
use super::model::empty_table;
use super::model::has_id;
use super::model::insert_sorted;
use super::model::is_full;
use super::model::lemma_all_entries;
use super::model::lemma_bucket_update;
use super::model::lemma_empty_table;
use super::model::lemma_oldest_known;
use super::model::lemma_table_pop_oldest;
use super::model::lemma_table_update;
use super::model::oldest_of_full;
use super::model::sort_by_distance;
use super::model::table_admits;
use super::model::table_pop_oldest;
use super::model::table_update;
use super::model::table_wf;
use super::model::without_id;
use super::model::without_oldest;
use super::model::BucketView;
use super::model::TableView;
use vstd::prelude::*;

verus! {

/// Number of nodes that a bucket takes unless told otherwise.
pub const BUCKET_SIZE: usize = 32;

/// Number of buckets of a table unless told otherwise: the width of an
/// identifier in bits.
pub const DEFAULT_HASH_SIZE: usize = 64;

/// Puts `node` into a vector that is read as sorted by distance to
/// `target`: behind the last entry that is not farther than it.
pub fn insert_by_distance(out: &mut Vec<DHTNode>, node: DHTNode, target: u64)
    ensures
        final(out).deep_view() == insert_sorted(old(out).deep_view(), node@, target),
{
    let ghost before = out.deep_view();
    let key = target.bitxor(&node.id);
    let mut p: usize = out.len();
    proof {
        assert(before.take(p as int) =~= before);
        assert(insert_sorted(before, node@, target) + before.skip(p as int) =~= insert_sorted(
            before,
            node@,
            target,
        ));
    }
    while p > 0 && key < target.bitxor(&out[p - 1].id)
        invariant
            p <= out.len(),
            out.deep_view() == before,
            key == distance(target, node.id),
            insert_sorted(before, node@, target) == insert_sorted(
                before.take(p as int),
                node@,
                target,
            ) + before.skip(p as int),
        decreases p,
    {
        proof {
            let cur = before.take(p as int);
            assert(cur.last() == before[p - 1]);
            assert(cur.drop_last() == before.take(p - 1));
            assert(insert_sorted(cur, node@, target) == insert_sorted(
                before.take(p - 1),
                node@,
                target,
            ).push(before[p - 1]));
            assert(before.skip(p - 1) == seq![before[p - 1]] + before.skip(p as int));
        }
        p -= 1;
    }
    proof {
        let cur = before.take(p as int);
        if p > 0 {
            assert(cur.last() == before[p - 1]);
        }
        assert(insert_sorted(cur, node@, target) == cur.push(node@));
    }
    out.insert(p, node);
    assert(out.deep_view() =~= before.take(p as int).push(node@) + before.skip(p as int));
}

/// K-bucket: the last seen nodes of one distance range, oldest first.
#[derive(Debug)]
pub struct KBucket {
    data: VecDeque<DHTNode>,
    size: usize,
}

impl View for KBucket {
    type V = BucketView;

    closed spec fn view(&self) -> BucketView {
        BucketView { entries: self.data.deep_view(), capacity: self.size as nat }
    }
}

impl KBucket {
    /// Well-formedness of the bucket.
    pub open spec fn wf(&self) -> bool {
        bucket_wf(self@)
    }

    /// An empty bucket for up to `k` nodes.
    pub fn new(k: usize) -> (b: KBucket)
        requires
            k > 0,
        ensures
            b.wf(),
            b@.entries == Seq::<DHTNodeView>::empty(),
            b@.capacity == k,
    {
        let b = KBucket { data: VecDeque::new(), size: k };
        assert(b.data.deep_view() =~= Seq::<DHTNodeView>::empty());
        b
    }

    /// Records that `node` was seen: a known node moves to the back, a new
    /// one is appended if there is room. Answers whether the node is now in
    /// the bucket.
    pub fn update(&mut self, node: &DHTNode) -> (r: bool)
        requires
            old(self).wf(),
        ensures
            final(self).wf(),
            (final(self)@, r) == bucket_update(old(self)@, node@),
    {
        proof {
            lemma_bucket_update(self@, node@);
        }
        let mut known = false;
        let mut i: usize = 0;
        while i < self.data.len()
            invariant
                i <= self.data.len(),
                known <==> has_id(self.data.deep_view().take(i as int), node.id),
            decreases self.data.len() - i,
        {
            proof {
                let s = self.data.deep_view();
                let cur = s.take(i as int);
                let next = s.take(i + 1);
                if has_id(cur, node.id) {
                    let k = choose|k: int| 0 <= k < cur.len() && cur[k].id == node.id;
                    assert(next[k].id == node.id);
                }
                if has_id(next, node.id) && s[i as int].id != node.id {
                    let k = choose|k: int| 0 <= k < next.len() && next[k].id == node.id;
                    assert(cur[k].id == node.id);
                }
                if s[i as int].id == node.id {
                    assert(next[i as int].id == node.id);
                }
            }
            if self.data[i].id == node.id {
                known = true;
            }
            i += 1;
        }
        assert(self.data.deep_view().take(self.data.len() as int) == self.data.deep_view());
        if known {
            self.update_position(node.clone());
            true
        } else if self.data.len() == self.size {
            false
        } else {
            self.data.push_back(node.clone());
            assert(self.data.deep_view() =~= old(self).data.deep_view().push(node@));
            true
        }
    }

    /// Up to `count` nodes of the bucket, ascending by XOR distance to `id`.
    pub fn find(&self, id: &u64, count: usize) -> (r: Vec<DHTNode>)
        ensures
            r.deep_view() == closest(self@.entries, *id, count as nat),
    {
        let mut data_copy: Vec<DHTNode> = Vec::new();
        let mut i: usize = 0;
        assert(data_copy.deep_view() =~= Seq::<DHTNodeView>::empty());
        while i < self.data.len()
            invariant
                i <= self.data.len(),
                data_copy.deep_view() == sort_by_distance(
                    self.data.deep_view().take(i as int),
                    *id,
                ),
            decreases self.data.len() - i,
        {
            proof {
                let s = self.data.deep_view();
                assert(s.take(i + 1).drop_last() == s.take(i as int));
                assert(s.take(i + 1).last() == self.data@[i as int]@);
            }
            insert_by_distance(&mut data_copy, self.data[i].clone(), *id);
            i += 1;
        }
        assert(self.data.deep_view().take(self.data.len() as int) == self.data.deep_view());
        data_copy.truncate(count);
        assert(data_copy.deep_view() =~= closest(self@.entries, *id, count as nat));
        data_copy
    }

    /// The nodes of the bucket, oldest first.
    pub fn data(&self) -> (r: &VecDeque<DHTNode>)
        ensures
            r.deep_view() == self@.entries,
    {
        &self.data
    }

    /// The number of nodes the bucket can take.
    pub fn size(&self) -> (r: usize)
        ensures
            r == self@.capacity,
    {
        self.size
    }

    /// Moves the entry of `node` to the back, with what `node` now says of
    /// the route.
    fn update_position(&mut self, node: DHTNode)
        ensures
            final(self).size == old(self).size,
            final(self)@.entries == without_id(old(self)@.entries, node.id).push(node@),
    {
        let mut new_data: VecDeque<DHTNode> = VecDeque::with_capacity(self.data.len());
        let mut i: usize = 0;
        assert(new_data.deep_view() =~= Seq::<DHTNodeView>::empty());
        proof {
            reveal(Seq::filter);
        }
        while i < self.data.len()
            invariant
                i <= self.data.len(),
                new_data.deep_view() == without_id(self.data.deep_view().take(i as int), node.id),
            decreases self.data.len() - i,
        {
            proof {
                reveal(Seq::filter);
                let s = self.data.deep_view();
                assert(s.take(i + 1).drop_last() == s.take(i as int));
                assert(s.take(i + 1).last() == self.data@[i as int]@);
            }
            let ghost before = new_data.deep_view();
            if self.data[i].id != node.id {
                new_data.push_back(self.data[i].clone());
                assert(new_data.deep_view() =~= before.push(self.data@[i as int]@));
            }
            i += 1;
        }
        assert(self.data.deep_view().take(self.data.len() as int) == self.data.deep_view());
        let ghost filtered = new_data.deep_view();
        let ghost view = node@;
        new_data.push_back(node);
        assert(new_data.deep_view() =~= filtered.push(view));
        self.data = new_data;
    }

    /// Takes the oldest node out of a full bucket; any other bucket is left
    /// alone.
    fn take_oldest_if_full(&mut self) -> (r: Option<DHTNode>)
        ensures
            final(self)@ == without_oldest(old(self)@),
            match r {
                Some(n) => is_full(old(self)@) && n@ == old(self)@.entries[0],
                None => !is_full(old(self)@),
            },
    {
        if self.data.len() > 0 && self.size == self.data.len() {
            let r = self.data.pop_front();
            assert(self.data.deep_view() =~= old(self).data.deep_view().drop_first());
            r
        } else {
            None
        }
    }
}

/// The views of a row of buckets.
pub open spec fn bucket_views(s: Seq<KBucket>) -> Seq<BucketView> {
    Seq::new(s.len(), |b: int| s[b]@)
}

/// Kademlia node table: one k-bucket for each bit of an identifier.
#[derive(Debug)]
pub struct KNodeTable {
    this_id: u64,
    hash_size: usize,
    buckets: Vec<KBucket>,
}

impl View for KNodeTable {
    type V = TableView;

    closed spec fn view(&self) -> TableView {
        TableView {
            this_id: self.this_id,
            hash_size: self.hash_size as nat,
            buckets: bucket_views(self.buckets@),
        }
    }
}

impl KNodeTable {
    /// A table for the node `this_id` with 64 buckets of 32 nodes.
    pub fn new(this_id: u64) -> (t: KNodeTable)
        ensures
            table_wf(t@),
            t@ == empty_table(this_id, BUCKET_SIZE as nat, DEFAULT_HASH_SIZE as nat),
    {
        KNodeTable::new_with_details(this_id, BUCKET_SIZE, DEFAULT_HASH_SIZE)
    }

    /// A table for the node `this_id` with `hash_size` empty buckets of
    /// `bucket_size` nodes each.
    pub fn new_with_details(this_id: u64, bucket_size: usize, hash_size: usize) -> (t: KNodeTable)
        requires
            hash_size > 0 ==> bucket_size > 0,
        ensures
            table_wf(t@),
            t@ == empty_table(this_id, bucket_size as nat, hash_size as nat),
    {
        let mut buckets: Vec<KBucket> = Vec::new();
        let mut i: usize = 0;
        while i < hash_size
            invariant
                i <= hash_size,
                hash_size > 0 ==> bucket_size > 0,
                buckets@.len() == i,
                forall|b: int|
                    0 <= b < i ==> (#[trigger] buckets@[b])@ == (BucketView {
                        entries: Seq::<DHTNodeView>::empty(),
                        capacity: bucket_size as nat,
                    }),
            decreases hash_size - i,
        {
            buckets.push(KBucket::new(bucket_size));
            i += 1;
        }
        let t = KNodeTable { this_id: this_id, hash_size: hash_size, buckets: buckets };
        assert(t@.buckets =~= Seq::new(
            hash_size as nat,
            |b: int|
                BucketView { entries: Seq::<DHTNodeView>::empty(), capacity: bucket_size as nat },
        ));
        t
    }

    /// The buckets, by index.
    pub fn buckets(&self) -> (r: &Vec<KBucket>)
        ensures
            bucket_views(r@) == self@.buckets,
    {
        &self.buckets
    }

    /// The identifier of the node that the table belongs to.
    pub fn this_id(&self) -> (r: u64)
        ensures
            r == self@.this_id,
    {
        self.this_id
    }

    /// Number of buckets.
    pub fn hash_size(&self) -> (r: usize)
        ensures
            r == self@.hash_size,
    {
        self.hash_size
    }

    /// Whether the table can be told of a node with the identifier `id`:
    /// it is not the table's own, and its distance fits the buckets.
    pub fn accepts(&self, id: &u64) -> (r: bool)
        ensures
            r == table_admits(self@, *id),
    {
        let diff = KNodeTable::distance(&self.this_id, id);
        proof {
            let x = self.this_id;
            let y = *id;
            assert(x != y <==> x ^ y != 0) by (bit_vector);
        }
        !diff.is_zero() && diff.bits() - 1 < self.hash_size
    }

    /// XOR distance between two identifiers.
    #[inline]
    pub fn distance(id1: &u64, id2: &u64) -> (r: u64)
        ensures
            r == distance(*id1, *id2),
    {
        id1.bitxor(id2)
    }

    /// Index of the bucket that keeps `id`.
    pub fn bucket_number(&self, id: &u64) -> (r: usize)
        requires
            table_admits(self@, *id),
        ensures
            r == bucket_index(self@.this_id, *id),
    {
        let diff = KNodeTable::distance(&self.this_id, id);
        proof {
            let x = self.this_id;
            let y = *id;
            assert(x != y ==> x ^ y != 0) by (bit_vector);
        }
        let res = diff.bits() - 1;
        res
    }
}

/// A table of known nodes. It keeps some reasonable part of the nodes that
/// it is told of with `update`.
pub trait GenericNodeTable: Send + Sync + Debug + Sized {
    /// Well-formedness of the table.
    spec fn wf(&self) -> bool;

    /// Whether the table can be told of a node with this identifier.
    spec fn admits(&self, id: u64) -> bool;

    /// The nodes that the table holds.
    spec fn known(&self) -> Seq<DHTNodeView>;

    /// Number of bits of the identifiers that the table deals in.
    spec fn id_bits(&self) -> nat;

    /// A new table for the node `node_id`.
    fn new(node_id: u64) -> (t: Self)
        ensures
            t.wf(),
            t.known().len() == 0,
            forall|id: u64| id != node_id ==> t.admits(id),
    ;

    /// A random identifier of the width of the table.
    fn random_id(&self) -> (r: u64)
        requires
            self.wf(),
            self.id_bits() <= 64,
        ensures
            bit_length(r) <= self.id_bits(),
    ;

    /// Stores or refreshes a node; answers whether the table holds it now.
    fn update(&mut self, node: &DHTNode) -> (r: bool)
        requires
            old(self).wf(),
            old(self).admits(node.id),
        ensures
            final(self).wf(),
            final(self).id_bits() == old(self).id_bits(),
            forall|id: u64| final(self).admits(id) == old(self).admits(id),
            r ==> has_id(final(self).known(), node.id),
            !r ==> final(self).known() == old(self).known(),
    ;

    /// Up to `count` of the nodes held, nearest to `id` first.
    fn find(&self, id: &u64, count: usize) -> (r: Vec<DHTNode>)
        requires
            self.wf(),
        ensures
            r.deep_view() == closest(self.known(), *id, count as nat),
    ;

    /// Takes out the nodes that should be looked at again: the oldest of
    /// each part of the table that is full.
    fn pop_oldest(&mut self) -> (r: Vec<DHTNode>)
        requires
            old(self).wf(),
        ensures
            final(self).wf(),
            final(self).id_bits() == old(self).id_bits(),
            forall|id: u64| final(self).admits(id) == old(self).admits(id),
            forall|i: int|
                0 <= i < r.len() ==> has_id(old(self).known(), #[trigger] r.deep_view()[i].id),
    ;
}

impl GenericNodeTable for KNodeTable {
    open spec fn wf(&self) -> bool {
        table_wf(self@)
    }

    open spec fn admits(&self, id: u64) -> bool {
        table_admits(self@, id)
    }

    open spec fn known(&self) -> Seq<DHTNodeView> {
        all_entries(self@.buckets)
    }

    open spec fn id_bits(&self) -> nat {
        self@.hash_size
    }

    fn new(this_id: u64) -> (t: KNodeTable)
        ensures
            t@ == empty_table(this_id, BUCKET_SIZE as nat, DEFAULT_HASH_SIZE as nat),
    {
        let t = KNodeTable::new_with_details(this_id, BUCKET_SIZE, DEFAULT_HASH_SIZE);
        proof {
            lemma_empty_table(t@, 64);
            assert(t@.buckets.take(64) == t@.buckets);
            assert forall|id: u64| id != this_id implies t.admits(id) by {
                lemma_bit_length_max(distance(this_id, id));
            }
        }
        t
    }

    fn random_id(&self) -> (r: u64) {
        u64::gen(self.hash_size)
    }

    fn update(&mut self, node: &DHTNode) -> (r: bool)
        ensures
            (final(self)@, r) == table_update(old(self)@, node@),
    {
        let bucket = self.bucket_number(&node.id);
        proof {
            lemma_table_update(self@, node@);
        }
        let r = self.buckets[bucket].update(node);
        proof {
            assert(self@.buckets =~= table_update(old(self)@, node@).0.buckets);
            let after = self@;
            lemma_all_entries(after, after.buckets.len() as int);
            lemma_all_entries(old(self)@, after.buckets.len() as int);
            assert(after.buckets.take(after.buckets.len() as int) == after.buckets);
            assert(old(self)@.buckets.take(after.buckets.len() as int) == old(self)@.buckets);
            if r {
                let e = after.buckets[bucket as int].entries;
                assert(e[e.len() - 1].id == node.id);
                assert(has_id(e, node.id));
            }
        }
        r
    }

    fn find(&self, id: &u64, count: usize) -> (r: Vec<DHTNode>) {
        let mut data_copy: Vec<DHTNode> = Vec::new();
        let ghost views = self@.buckets;
        let mut b: usize = 0;
        assert(data_copy.deep_view() =~= Seq::<DHTNodeView>::empty());
        assert(views.take(0) =~= Seq::<BucketView>::empty());
        while b < self.buckets.len()
            invariant
                b <= self.buckets.len(),
                views == self@.buckets,
                views.len() == self.buckets.len(),
                data_copy.deep_view() == sort_by_distance(all_entries(views.take(b as int)), *id),
            decreases self.buckets.len() - b,
        {
            let bucket = &self.buckets[b];
            let ghost before = all_entries(views.take(b as int));
            let ghost entries = views[b as int].entries;
            let mut i: usize = 0;
            assert(before + entries.take(0) =~= before);
            while i < bucket.data.len()
                invariant
                    i <= bucket.data.len(),
                    entries == bucket.data.deep_view(),
                    data_copy.deep_view() == sort_by_distance(before + entries.take(i as int), *id),
                decreases bucket.data.len() - i,
            {
                proof {
                    let next = before + entries.take(i + 1);
                    assert(next.drop_last() =~= before + entries.take(i as int));
                    assert(next.last() == bucket.data@[i as int]@);
                }
                insert_by_distance(&mut data_copy, bucket.data[i].clone(), *id);
                i += 1;
            }
            proof {
                assert(entries.take(entries.len() as int) == entries);
                assert(views.take(b + 1).drop_last() == views.take(b as int));
                assert(views.take(b + 1).last() == views[b as int]);
            }
            b += 1;
        }
        assert(views.take(views.len() as int) == views);
        data_copy.truncate(count);
        assert(data_copy.deep_view() =~= closest(all_entries(views), *id, count as nat));
        data_copy
    }

    fn pop_oldest(&mut self) -> (r: Vec<DHTNode>)
        ensures
            (final(self)@, r.deep_view()) == table_pop_oldest(old(self)@),
    {
        let mut out: Vec<DHTNode> = Vec::new();
        let ghost views = self@.buckets;
        let n = self.buckets.len();
        let mut b: usize = 0;
        assert(out.deep_view() =~= Seq::<DHTNodeView>::empty());
        assert(views.take(0) =~= Seq::<BucketView>::empty());
        while b < n
            invariant
                b <= n,
                n == self.buckets.len(),
                views.len() == n,
                self.this_id == old(self).this_id,
                self.hash_size == old(self).hash_size,
                out.deep_view() == oldest_of_full(views.take(b as int)),
                forall|c: int| 0 <= c < b ==> (#[trigger] self.buckets@[c])@ == without_oldest(views[c]),
                forall|c: int| b <= c < n ==> (#[trigger] self.buckets@[c])@ == views[c],
            decreases n - b,
        {
            let ghost before = out.deep_view();
            let taken = self.buckets[b].take_oldest_if_full();
            match taken {
                Some(node) => {
                    let ghost view = node@;
                    out.push(node);
                    assert(out.deep_view() =~= before.push(view));
                },
                None => {},
            }
            proof {
                assert(views.take(b + 1).drop_last() == views.take(b as int));
                assert(views.take(b + 1).last() == views[b as int]);
            }
            b += 1;
        }
        proof {
            assert(views.take(n as int) == views);
            assert(self@.buckets =~= table_pop_oldest(old(self)@).0.buckets);
            lemma_table_pop_oldest(old(self)@);
            lemma_oldest_known(old(self)@, n as int);
        }
        out
    }
}

} // verus!
