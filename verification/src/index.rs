//! Approximate Index: one per indexed column.
//!
//! The index holds the distinct normalized keys produced by a column of the
//! base dataset, and for each key the identities of the records that produced
//! it. A query returns every record registered under any stored key within a
//! bounded edit distance of the query key; the empty key never matches and is
//! never stored, so blank fields cannot cause mass false positives. The
//! distinct keys are scanned directly — retrieval needs no key order, so none
//! is maintained.

use vstd::prelude::*;
use crate::distance::{edit_dist, within_edit_distance};
use crate::normalize::{norm_spec, lemma_norm_len};
use crate::seqs::{distinct_seq, lemma_distinct_concat};

verus! {

/// Per-column approximate-match index: `keys` are the distinct non-empty
/// normalized keys of the column, and `buckets[k]` the identities of the base
/// records whose column value normalized to `keys[k]`.
#[derive(Debug)]
pub struct ApproximateIndex {
    pub keys: Vec<String>,
    pub buckets: Vec<Vec<usize>>,
}

impl ApproximateIndex {
    /// Structural invariant: keys are distinct, non-empty and normalized;
    /// buckets run parallel to keys; no record identity occurs twice, within
    /// a bucket or across buckets, since one record contributes one value to
    /// a column.
    pub open spec fn wf(self) -> bool {
        &&& self.keys@.len() == self.buckets@.len()
        &&& forall|k1: int, k2: int|
            0 <= k1 < k2 < self.keys@.len() ==> (#[trigger] self.keys@[k1])@
                != (#[trigger] self.keys@[k2])@
        &&& forall|k: int|
            0 <= k < self.keys@.len() ==> ((#[trigger] self.keys@[k])@.len() > 0
                && self.keys@[k]@ == norm_spec(self.keys@[k]@))
        &&& forall|k1: int, p1: int, k2: int, p2: int|
            (0 <= k1 < self.buckets@.len() && 0 <= p1 < self.buckets@[k1]@.len() && 0 <= k2
                < self.buckets@.len() && 0 <= p2 < self.buckets@[k2]@.len() && (k1 != k2 || p1
                != p2)) ==> (#[trigger] self.buckets@[k1]@[p1]) != (#[trigger] self.buckets@[k2]@[p2])
    }

    /// A record identity is registered under a stored key.
    pub open spec fn registered(self, key: Seq<char>, id: usize) -> bool {
        exists|k: int|
            0 <= k < self.keys@.len() && (#[trigger] self.keys@[k])@ == key
                && self.buckets@[k]@.contains(id)
    }

    /// The identities a query for `key` at distance bound `d` returns,
    /// reading the first `upto` stored keys: the concatenation, in storage
    /// order, of the buckets of every key within distance `d`.
    pub open spec fn query_prefix(self, key: Seq<char>, d: usize, upto: int) -> Seq<usize>
        decreases upto,
    {
        if upto <= 0 {
            Seq::empty()
        } else {
            let rest = self.query_prefix(key, d, upto - 1);
            if edit_dist(key, self.keys@[upto - 1]@) <= d {
                rest + self.buckets@[upto - 1]@
            } else {
                rest
            }
        }
    }

    /// The full query result: empty for the empty key, which is
    /// policy-excluded from matching.
    pub open spec fn query_spec(self, key: Seq<char>, d: usize) -> Seq<usize> {
        if key.len() == 0 {
            Seq::empty()
        } else {
            self.query_prefix(key, d, self.keys@.len() as int)
        }
    }

    /// What a query returns, membership-wise: exactly the identities
    /// registered under some stored key within the distance bound (none, for
    /// the empty key) — and each at most once.
    pub proof fn lemma_query_characterization(self, key: Seq<char>, d: usize)
        requires
            self.wf(),
        ensures
            forall|id: usize|
                #[trigger] self.query_spec(key, d).contains(id) <==> (key.len() > 0 && exists|
                k: int,
                |
                    0 <= k < self.keys@.len() && edit_dist(key, (#[trigger] self.keys@[k])@) <= d
                        && self.buckets@[k]@.contains(id)),
            distinct_seq(self.query_spec(key, d)),
    {
        if key.len() > 0 {
            self.lemma_query_prefix_characterization(key, d, self.keys@.len() as int);
        }
    }

    proof fn lemma_query_prefix_characterization(self, key: Seq<char>, d: usize, upto: int)
        requires
            self.wf(),
            0 <= upto <= self.keys@.len(),
        ensures
            forall|id: usize|
                #[trigger] self.query_prefix(key, d, upto).contains(id) <==> exists|k: int|
                    0 <= k < upto && edit_dist(key, (#[trigger] self.keys@[k])@) <= d
                        && self.buckets@[k]@.contains(id),
            distinct_seq(self.query_prefix(key, d, upto)),
        decreases upto,
    {
        if upto > 0 {
            self.lemma_query_prefix_characterization(key, d, upto - 1);
            let rest = self.query_prefix(key, d, upto - 1);
            let cur = self.query_prefix(key, d, upto);
            if edit_dist(key, self.keys@[upto - 1]@) <= d {
                let bucket = self.buckets@[upto - 1]@;
                assert(cur == rest + bucket);
                assert forall|id: usize| #[trigger] cur.contains(id) implies (exists|k: int|
                    0 <= k < upto && edit_dist(key, (#[trigger] self.keys@[k])@) <= d
                        && self.buckets@[k]@.contains(id)) by {
                    let i = choose|i: int| 0 <= i < cur.len() && cur[i] == id;
                    if i < rest.len() {
                        assert(rest[i] == id);
                        assert(rest.contains(id));
                    } else {
                        assert(bucket[i - rest.len()] == id);
                        assert(bucket.contains(id));
                    }
                }
                assert forall|id: usize|
                    (exists|k: int|
                        0 <= k < upto && edit_dist(key, (#[trigger] self.keys@[k])@) <= d
                            && self.buckets@[k]@.contains(id)) implies #[trigger] cur.contains(
                    id,
                ) by {
                    let k = choose|k: int|
                        0 <= k < upto && edit_dist(key, (#[trigger] self.keys@[k])@) <= d
                            && self.buckets@[k]@.contains(id);
                    if k < upto - 1 {
                        assert(rest.contains(id));
                        let i = choose|i: int| 0 <= i < rest.len() && rest[i] == id;
                        assert(cur[i] == id);
                    } else {
                        let p = choose|p: int| 0 <= p < bucket.len() && bucket[p] == id;
                        assert(cur[rest.len() + p] == id);
                    }
                }
                assert(distinct_seq(bucket)) by {
                    assert forall|p1: int, p2: int| 0 <= p1 < p2 < bucket.len() implies bucket[p1]
                        != bucket[p2] by {
                        assert(self.buckets@[upto - 1]@[p1] != self.buckets@[upto - 1]@[p2]);
                    }
                }
                assert forall|x: usize| #[trigger] rest.contains(x) implies !bucket.contains(x) by {
                    if bucket.contains(x) {
                        let k = choose|k: int|
                            0 <= k < upto - 1 && edit_dist(key, (#[trigger] self.keys@[k])@) <= d
                                && self.buckets@[k]@.contains(x);
                        let p1 = choose|p1: int|
                            0 <= p1 < self.buckets@[k]@.len() && self.buckets@[k]@[p1] == x;
                        let p2 = choose|p2: int| 0 <= p2 < bucket.len() && bucket[p2] == x;
                        assert(self.buckets@[k]@[p1] == self.buckets@[upto - 1]@[p2]);
                        assert(false);
                    }
                }
                lemma_distinct_concat(rest, bucket);
            }
        }
    }

    /// Builds the index from one column's `(normalized key, record identity)`
    /// pairs. Keys must already be normalized (indexing and querying must
    /// normalize identically) and identities distinct — one pair per base
    /// record. Pairs whose key is empty are never indexed.
    pub fn build(pairs: &Vec<(String, usize)>) -> (r: ApproximateIndex)
        requires
            forall|p: int|
                0 <= p < pairs@.len() ==> (#[trigger] pairs@[p].0)@ == norm_spec(pairs@[p].0@),
            forall|p1: int, p2: int|
                0 <= p1 < p2 < pairs@.len() ==> (#[trigger] pairs@[p1].1) != (
                #[trigger] pairs@[p2].1),
        ensures
            r.wf(),
            forall|key: Seq<char>, id: usize|
                #[trigger] r.registered(key, id) <==> (key.len() > 0 && exists|p: int|
                    0 <= p < pairs@.len() && (#[trigger] pairs@[p].0)@ == key && pairs@[p].1 == id),
    {
        let mut keys: Vec<String> = Vec::new();
        let mut buckets: Vec<Vec<usize>> = Vec::new();
        let mut i: usize = 0;
        while i < pairs.len()
            invariant
                0 <= i <= pairs@.len(),
                forall|p: int|
                    0 <= p < pairs@.len() ==> (#[trigger] pairs@[p].0)@ == norm_spec(pairs@[p].0@),
                forall|p1: int, p2: int|
                    0 <= p1 < p2 < pairs@.len() ==> (#[trigger] pairs@[p1].1) != (
                    #[trigger] pairs@[p2].1),
                (ApproximateIndex { keys, buckets }).wf(),
                forall|key: Seq<char>, id: usize|
                    #[trigger] (ApproximateIndex { keys, buckets }).registered(key, id) <==> (
                    key.len() > 0 && exists|p: int|
                        0 <= p < i && (#[trigger] pairs@[p].0)@ == key && pairs@[p].1 == id),
                forall|k: int, q: int|
                    0 <= k < buckets@.len() && 0 <= q < buckets@[k]@.len() ==> exists|p: int|
                        0 <= p < i && (#[trigger] pairs@[p].1) == (#[trigger] buckets@[k]@[q]),
            decreases pairs@.len() - i,
        {
            let ghost pre = ApproximateIndex { keys, buckets };
            let key_ref = &pairs[i].0;
            let id = pairs[i].1;
            if key_ref.as_str().unicode_len() > 0 {
                let mut k: usize = 0;
                let mut found = false;
                while k < keys.len() && !found
                    invariant
                        0 <= k <= keys@.len(),
                        found ==> (k < keys@.len() && keys@[k as int]@ == key_ref@),
                        !found ==> forall|k2: int|
                            0 <= k2 < k ==> (#[trigger] keys@[k2])@ != key_ref@,
                    decreases keys@.len() - k + (if found {
                        0int
                    } else {
                        1int
                    }),
                {
                    if keys[k].eq(key_ref) {
                        found = true;
                    } else {
                        k = k + 1;
                    }
                }
                if found {
                    let mut bucket = buckets.remove(k);
                    bucket.push(id);
                    buckets.insert(k, bucket);
                    proof {
                        let cur = ApproximateIndex { keys, buckets };
                        assert(buckets@.len() == pre.buckets@.len());
                        assert(buckets@[k as int]@ =~= pre.buckets@[k as int]@.push(id));
                        assert(forall|k2: int|
                            0 <= k2 < buckets@.len() && k2 != k ==> (#[trigger] buckets@[k2])
                                == pre.buckets@[k2]);
                        // the appended identity is fresh: every stored identity
                        // stems from an earlier pair, and pair identities differ
                        assert forall|k2: int, q: int|
                            0 <= k2 < buckets@.len() && 0 <= q < buckets@[k2]@.len() && (
                            #[trigger] buckets@[k2]@[q]) == id implies (k2 == k && q == buckets@[
                            k as int]@.len() - 1) by {
                            if !(k2 == k && q == buckets@[k as int]@.len() - 1) {
                                assert(buckets@[k2]@[q] == pre.buckets@[k2]@[q]);
                                let p = choose|p: int|
                                    0 <= p < i && (#[trigger] pairs@[p].1) == pre.buckets@[k2]@[q];
                                assert(pairs@[p].1 == pairs@[i as int].1);
                                assert(false);
                            }
                        }
                        assert(cur.wf()) by {
                            assert forall|k1: int, p1: int, k2: int, p2: int|
                                (0 <= k1 < buckets@.len() && 0 <= p1 < buckets@[k1]@.len() && 0
                                    <= k2 < buckets@.len() && 0 <= p2 < buckets@[k2]@.len() && (k1
                                    != k2 || p1 != p2)) implies (#[trigger] buckets@[k1]@[p1]) != (
                                #[trigger] buckets@[k2]@[p2]) by {
                                let last = buckets@[k as int]@.len() - 1;
                                if (k1 == k && p1 == last) && !(k2 == k && p2 == last) {
                                    assert(buckets@[k1]@[p1] == id);
                                } else if !(k1 == k && p1 == last) && (k2 == k && p2 == last) {
                                    assert(buckets@[k2]@[p2] == id);
                                } else if !(k1 == k && p1 == last) && !(k2 == k && p2 == last) {
                                    assert(buckets@[k1]@[p1] == pre.buckets@[k1]@[p1]);
                                    assert(buckets@[k2]@[p2] == pre.buckets@[k2]@[p2]);
                                }
                            }
                        }
                        assert forall|key: Seq<char>, id2: usize|
                            #[trigger] cur.registered(key, id2) <==> (key.len() > 0 && exists|
                            p: int,
                        |
                            0 <= p < i + 1 && (#[trigger] pairs@[p].0)@ == key && pairs@[p].1
                                == id2) by {
                            if cur.registered(key, id2) {
                                let kw = choose|kw: int|
                                    0 <= kw < cur.keys@.len() && (#[trigger] cur.keys@[kw])@ == key
                                        && cur.buckets@[kw]@.contains(id2);
                                let q = choose|q: int|
                                    0 <= q < cur.buckets@[kw]@.len() && cur.buckets@[kw]@[q] == id2;
                                if kw == k && q == buckets@[k as int]@.len() - 1 {
                                    assert(pairs@[i as int].0@ == key && pairs@[i as int].1 == id2);
                                } else {
                                    assert(cur.buckets@[kw]@[q] == pre.buckets@[kw]@[q]);
                                    assert(pre.buckets@[kw]@.contains(id2));
                                    assert(pre.registered(key, id2));
                                }
                            }
                            if key.len() > 0 && exists|p: int|
                                0 <= p < i + 1 && (#[trigger] pairs@[p].0)@ == key && pairs@[p].1
                                    == id2 {
                                let p = choose|p: int|
                                    0 <= p < i + 1 && (#[trigger] pairs@[p].0)@ == key
                                        && pairs@[p].1 == id2;
                                if p < i {
                                    assert(pre.registered(key, id2));
                                    let kw = choose|kw: int|
                                        0 <= kw < pre.keys@.len() && (#[trigger] pre.keys@[kw])@
                                            == key && pre.buckets@[kw]@.contains(id2);
                                    let q = choose|q: int|
                                        0 <= q < pre.buckets@[kw]@.len() && pre.buckets@[kw]@[q]
                                            == id2;
                                    if kw == k {
                                        assert(buckets@[kw]@[q] == id2);
                                    } else {
                                        assert(buckets@[kw]@[q] == id2);
                                    }
                                    assert(cur.buckets@[kw]@.contains(id2));
                                    assert(cur.registered(key, id2));
                                } else {
                                    let last = buckets@[k as int]@.len() - 1;
                                    assert(buckets@[k as int]@[last] == id);
                                    assert(cur.buckets@[k as int]@.contains(id));
                                    assert(cur.keys@[k as int]@ == key);
                                    assert(cur.registered(key, id2));
                                }
                            }
                        }
                    }
                } else {
                    keys.push(key_ref.clone());
                    let mut bucket: Vec<usize> = Vec::new();
                    bucket.push(id);
                    buckets.push(bucket);
                    proof {
                        let cur = ApproximateIndex { keys, buckets };
                        let kn = keys@.len() - 1;
                        assert(keys@[kn] == pre.keys@.push(keys@[kn])[kn]);
                        assert(keys@[kn]@ == key_ref@);
                        assert(buckets@[kn]@ =~= seq![id]);
                        assert(forall|k2: int| 0 <= k2 < kn ==> (#[trigger] keys@[k2]) == pre.keys@[k2]);
                        assert(forall|k2: int|
                            0 <= k2 < kn ==> (#[trigger] buckets@[k2]) == pre.buckets@[k2]);
                        // the new identity is fresh in every earlier bucket
                        assert forall|k2: int, q: int|
                            0 <= k2 < kn && 0 <= q < buckets@[k2]@.len() implies (
                        #[trigger] buckets@[k2]@[q]) != id by {
                            if buckets@[k2]@[q] == id {
                                let p = choose|p: int|
                                    0 <= p < i && (#[trigger] pairs@[p].1) == pre.buckets@[k2]@[q];
                                assert(pairs@[p].1 == pairs@[i as int].1);
                                assert(false);
                            }
                        }
                        assert(cur.wf()) by {
                            assert forall|k1: int, k2: int| 0 <= k1 < k2 < keys@.len() implies (
                            #[trigger] keys@[k1])@ != (#[trigger] keys@[k2])@ by {
                                if k2 == kn {
                                    assert(keys@[k1]@ != key_ref@);
                                }
                            }
                            assert forall|k2: int| 0 <= k2 < keys@.len() implies ((
                            #[trigger] keys@[k2])@.len() > 0 && keys@[k2]@ == norm_spec(
                                keys@[k2]@,
                            )) by {
                                if k2 == kn {
                                    assert(keys@[kn]@ == pairs@[i as int].0@);
                                }
                            }
                            assert forall|k1: int, p1: int, k2: int, p2: int|
                                (0 <= k1 < buckets@.len() && 0 <= p1 < buckets@[k1]@.len() && 0
                                    <= k2 < buckets@.len() && 0 <= p2 < buckets@[k2]@.len() && (k1
                                    != k2 || p1 != p2)) implies (#[trigger] buckets@[k1]@[p1]) != (
                                #[trigger] buckets@[k2]@[p2]) by {
                                if k1 == kn && k2 != kn {
                                    assert(buckets@[k1]@[p1] == id);
                                } else if k1 != kn && k2 == kn {
                                    assert(buckets@[k2]@[p2] == id);
                                } else if k1 != kn && k2 != kn {
                                    assert(buckets@[k1]@[p1] == pre.buckets@[k1]@[p1]);
                                    assert(buckets@[k2]@[p2] == pre.buckets@[k2]@[p2]);
                                }
                            }
                        }
                        assert forall|key: Seq<char>, id2: usize|
                            #[trigger] cur.registered(key, id2) <==> (key.len() > 0 && exists|
                            p: int,
                        |
                            0 <= p < i + 1 && (#[trigger] pairs@[p].0)@ == key && pairs@[p].1
                                == id2) by {
                            if cur.registered(key, id2) {
                                let kw = choose|kw: int|
                                    0 <= kw < cur.keys@.len() && (#[trigger] cur.keys@[kw])@ == key
                                        && cur.buckets@[kw]@.contains(id2);
                                if kw == kn {
                                    assert(cur.buckets@[kn]@[0] == id);
                                    assert(id2 == id);
                                    assert(pairs@[i as int].0@ == key && pairs@[i as int].1 == id2);
                                } else {
                                    assert(pre.keys@[kw]@ == key);
                                    assert(pre.buckets@[kw]@.contains(id2));
                                    assert(pre.registered(key, id2));
                                }
                            }
                            if key.len() > 0 && exists|p: int|
                                0 <= p < i + 1 && (#[trigger] pairs@[p].0)@ == key && pairs@[p].1
                                    == id2 {
                                let p = choose|p: int|
                                    0 <= p < i + 1 && (#[trigger] pairs@[p].0)@ == key
                                        && pairs@[p].1 == id2;
                                if p < i {
                                    assert(pre.registered(key, id2));
                                    let kw = choose|kw: int|
                                        0 <= kw < pre.keys@.len() && (#[trigger] pre.keys@[kw])@
                                            == key && pre.buckets@[kw]@.contains(id2);
                                    assert(cur.keys@[kw]@ == key);
                                    let q = choose|q: int|
                                        0 <= q < pre.buckets@[kw]@.len() && pre.buckets@[kw]@[q]
                                            == id2;
                                    assert(cur.buckets@[kw]@[q] == id2);
                                    assert(cur.buckets@[kw]@.contains(id2));
                                    assert(cur.registered(key, id2));
                                } else {
                                    assert(cur.keys@[kn]@ == key);
                                    assert(cur.buckets@[kn]@[0] == id2);
                                    assert(cur.buckets@[kn]@.contains(id2));
                                    assert(cur.registered(key, id2));
                                }
                            }
                        }
                    }
                }
            } else {
                proof {
                    let cur = ApproximateIndex { keys, buckets };
                    assert forall|key: Seq<char>, id2: usize|
                        #[trigger] cur.registered(key, id2) <==> (key.len() > 0 && exists|p: int|
                            0 <= p < i + 1 && (#[trigger] pairs@[p].0)@ == key && pairs@[p].1
                                == id2) by {
                        if key.len() > 0 && exists|p: int|
                            0 <= p < i + 1 && (#[trigger] pairs@[p].0)@ == key && pairs@[p].1
                                == id2 {
                            let p = choose|p: int|
                                0 <= p < i + 1 && (#[trigger] pairs@[p].0)@ == key && pairs@[p].1
                                    == id2;
                            assert(p < i);
                        }
                    }
                }
            }
            i = i + 1;
        }
        ApproximateIndex { keys, buckets }
    }

    /// Queries the index: the identities registered under any stored key
    /// within `max_distance` edits of `key`, in storage order; empty for the
    /// empty key. The distance bound is caller-supplied rather than baked in:
    /// 2 is the calibrated choice, and raising it is an open tuning question,
    /// not a structural limit.
    pub fn query(&self, key: &str, max_distance: usize) -> (r: Vec<usize>)
        requires
            self.wf(),
            key@ == norm_spec(key@),
        ensures
            r@ == self.query_spec(key@, max_distance),
            forall|id: usize|
                #[trigger] r@.contains(id) <==> (key@.len() > 0 && exists|k: int|
                    0 <= k < self.keys@.len() && edit_dist(key@, (#[trigger] self.keys@[k])@)
                        <= max_distance && self.buckets@[k]@.contains(id)),
            distinct_seq(r@),
    {
        proof {
            self.lemma_query_characterization(key@, max_distance);
        }
        let mut r: Vec<usize> = Vec::new();
        if key.unicode_len() == 0 {
            return r;
        }
        let mut k: usize = 0;
        while k < self.keys.len()
            invariant
                self.wf(),
                key@ == norm_spec(key@),
                key@.len() > 0,
                0 <= k <= self.keys@.len(),
                r@ == self.query_prefix(key@, max_distance, k as int),
            decreases self.keys@.len() - k,
        {
            proof {
                lemma_norm_len(key@);
                lemma_norm_len(self.keys@[k as int]@);
            }
            if within_edit_distance(key, self.keys[k].as_str(), max_distance) {
                let ghost pre = r@;
                let bucket = &self.buckets[k];
                let mut p: usize = 0;
                while p < bucket.len()
                    invariant
                        0 <= p <= bucket@.len(),
                        bucket@ == self.buckets@[k as int]@,
                        r@ == pre + bucket@.take(p as int),
                    decreases bucket@.len() - p,
                {
                    r.push(bucket[p]);
                    proof {
                        assert(bucket@.take(p + 1 as int) =~= bucket@.take(p as int).push(
                            bucket@[p as int],
                        ));
                        assert(pre + bucket@.take(p + 1 as int) =~= (pre + bucket@.take(
                            p as int,
                        )).push(bucket@[p as int]));
                    }
                    p = p + 1;
                }
                proof {
                    assert(bucket@.take(bucket@.len() as int) =~= bucket@);
                }
            }
            k = k + 1;
        }
        r
    }
}

} // verus!
