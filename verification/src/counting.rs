//! Counting of cluster members inside an assignment vector.
//!
//! An assignment is a sequence of cluster ids, one per data point. These
//! spec functions and lemmas describe how many points each cluster holds,
//! when an assignment is valid (no cluster empty), and the pigeonhole facts
//! that make repair work: whenever a cluster is empty and there are at least
//! as many points as clusters, some other cluster can spare a point.

use vstd::prelude::*;

verus! {

/// Number of positions of `s` assigned to cluster `c`.
pub open spec fn cluster_count(s: Seq<u32>, c: u32) -> nat
    decreases s.len(),
{
    if s.len() == 0 {
        0
    } else {
        cluster_count(s.drop_last(), c) + if s.last() == c {
            1nat
        } else {
            0nat
        }
    }
}

/// Every gene of `s` names a cluster below `k`.
pub open spec fn genes_below(s: Seq<u32>, k: u32) -> bool {
    forall|i: int| 0 <= i < s.len() ==> s[i] < k
}

/// Every cluster id below `k` has at least one member in `s`.
pub open spec fn valid_assignment(s: Seq<u32>, k: u32) -> bool {
    forall|c: u32| c < k ==> cluster_count(s, c) > 0
}

/// Total number of positions assigned to clusters below `k`.
pub open spec fn total_count(s: Seq<u32>, k: u32) -> nat
    decreases k,
{
    if k == 0 {
        0
    } else {
        total_count(s, (k - 1) as u32) + cluster_count(s, (k - 1) as u32)
    }
}

/// Number of clusters below `k` without any member in `s`.
pub open spec fn empty_cluster_count(s: Seq<u32>, k: u32) -> nat
    decreases k,
{
    if k == 0 {
        0
    } else {
        empty_cluster_count(s, (k - 1) as u32) + if cluster_count(s, (k - 1) as u32) == 0 {
            1nat
        } else {
            0nat
        }
    }
}

/// Counting a one-longer prefix adds one exactly when the new position
/// holds the counted cluster.
pub proof fn lemma_count_take_step(s: Seq<u32>, i: int, c: u32)
    requires
        0 <= i < s.len(),
    ensures
        cluster_count(s.take(i + 1), c) == cluster_count(s.take(i), c) + if s[i] == c {
            1nat
        } else {
            0nat
        },
{
    assert(s.take(i + 1).drop_last() =~= s.take(i));
    assert(s.take(i + 1).last() == s[i]);
}

/// A cluster has a member exactly when its count is positive.
pub proof fn lemma_count_pos_iff_member(s: Seq<u32>, c: u32)
    ensures
        cluster_count(s, c) > 0 <==> exists|i: int| 0 <= i < s.len() && s[i] == c,
    decreases s.len(),
{
    if s.len() > 0 {
        lemma_count_pos_iff_member(s.drop_last(), c);
        if s.last() == c {
            assert(s[s.len() - 1] == c);
        } else {
            if cluster_count(s, c) > 0 {
                let i = choose|i: int| 0 <= i < s.drop_last().len() && s.drop_last()[i] == c;
                assert(s[i] == c);
            }
            if exists|i: int| 0 <= i < s.len() && s[i] == c {
                let i = choose|i: int| 0 <= i < s.len() && s[i] == c;
                assert(i < s.len() - 1 && s.drop_last()[i] == c);
            }
        }
    }
}

/// How one reassignment changes each cluster's count.
pub proof fn lemma_count_update(s: Seq<u32>, i: int, v: u32, c: u32)
    requires
        0 <= i < s.len(),
    ensures
        cluster_count(s.update(i, v), c) + (if s[i] == c {
            1nat
        } else {
            0nat
        }) == cluster_count(s, c) + (if v == c {
            1nat
        } else {
            0nat
        }),
    decreases s.len(),
{
    let t = s.update(i, v);
    if i == s.len() - 1 {
        assert(t.drop_last() =~= s.drop_last());
        assert(t.last() == v);
    } else {
        assert(t.drop_last() =~= s.drop_last().update(i, v));
        assert(t.last() == s.last());
        lemma_count_update(s.drop_last(), i, v, c);
    }
}

/// An empty assignment gives every cluster count zero.
proof fn lemma_total_count_empty(s: Seq<u32>, k: u32)
    requires
        s.len() == 0,
    ensures
        total_count(s, k) == 0,
    decreases k,
{
    if k > 0 {
        lemma_total_count_empty(s, (k - 1) as u32);
    }
}

/// Dropping the last position lowers the total count by one when that
/// position names a cluster below `k`.
proof fn lemma_total_count_drop(s: Seq<u32>, k: u32)
    requires
        s.len() > 0,
    ensures
        total_count(s, k) == total_count(s.drop_last(), k) + if s.last() < k {
            1nat
        } else {
            0nat
        },
    decreases k,
{
    if k > 0 {
        lemma_total_count_drop(s, (k - 1) as u32);
    }
}

/// When every gene is below `k`, the cluster counts sum to the length.
pub proof fn lemma_total_count_full(s: Seq<u32>, k: u32)
    requires
        genes_below(s, k),
    ensures
        total_count(s, k) == s.len(),
    decreases s.len(),
{
    if s.len() == 0 {
        lemma_total_count_empty(s, k);
    } else {
        assert(genes_below(s.drop_last(), k)) by {
            assert(forall|i: int|
                0 <= i < s.drop_last().len() ==> s.drop_last()[i] == s[i] && s[i] < k);
        }
        lemma_total_count_full(s.drop_last(), k);
        lemma_total_count_drop(s, k);
        assert(s.last() == s[s.len() - 1]);
    }
}

/// When no cluster below `k` holds two points and cluster `e` is empty, at
/// most `k - 1` positions are assigned below `k`.
proof fn lemma_total_count_bounded(s: Seq<u32>, k: u32, e: u32)
    requires
        forall|c: u32| c < k ==> cluster_count(s, c) <= 1,
        e < k,
        cluster_count(s, e) == 0,
    ensures
        total_count(s, k) + 1 <= k,
    decreases k,
{
    if k - 1 == e {
        assert(total_count(s, (k - 1) as u32) <= k - 1) by {
            lemma_total_count_at_most(s, (k - 1) as u32);
        }
    } else {
        lemma_total_count_bounded(s, (k - 1) as u32, e);
    }
}

/// When no cluster below `k` holds two points, at most `k` positions are
/// assigned below `k`.
proof fn lemma_total_count_at_most(s: Seq<u32>, k: u32)
    requires
        forall|c: u32| c < k ==> cluster_count(s, c) <= 1,
    ensures
        total_count(s, k) <= k,
    decreases k,
{
    if k > 0 {
        lemma_total_count_at_most(s, (k - 1) as u32);
    }
}

/// Pigeonhole for repair: if some cluster is empty while there are at least
/// as many points as clusters, some cluster holds two points or more.
pub proof fn lemma_donor_exists(s: Seq<u32>, k: u32, e: u32)
    requires
        genes_below(s, k),
        e < k,
        cluster_count(s, e) == 0,
        s.len() >= k,
    ensures
        exists|c: u32| c < k && cluster_count(s, c) >= 2,
{
    if !(exists|c: u32| c < k && cluster_count(s, c) >= 2) {
        assert(forall|c: u32| c < k ==> cluster_count(s, c) <= 1);
        lemma_total_count_bounded(s, k, e);
        lemma_total_count_full(s, k);
    }
}

/// Pigeonhole for mutation: with more points than clusters, some cluster
/// holds two points or more.
pub proof fn lemma_crowded_cluster_exists(s: Seq<u32>, k: u32)
    requires
        genes_below(s, k),
        s.len() > k,
    ensures
        exists|c: u32| c < k && cluster_count(s, c) >= 2,
{
    if !(exists|c: u32| c < k && cluster_count(s, c) >= 2) {
        assert(forall|c: u32| c < k ==> cluster_count(s, c) <= 1);
        lemma_total_count_at_most(s, k);
        lemma_total_count_full(s, k);
    }
}

/// Two assignments with the same clusters empty have the same number of
/// empty clusters.
pub proof fn lemma_empty_count_congruent(s1: Seq<u32>, s2: Seq<u32>, k: u32)
    requires
        forall|c: u32| c < k ==> ((cluster_count(s1, c) == 0) <==> (cluster_count(s2, c) == 0)),
    ensures
        empty_cluster_count(s1, k) == empty_cluster_count(s2, k),
    decreases k,
{
    if k > 0 {
        lemma_empty_count_congruent(s1, s2, (k - 1) as u32);
    }
}

/// Filling exactly one previously-empty cluster lowers the number of empty
/// clusters by one.
pub proof fn lemma_empty_count_drops(s1: Seq<u32>, s2: Seq<u32>, k: u32, e: u32)
    requires
        e < k,
        cluster_count(s1, e) == 0,
        cluster_count(s2, e) > 0,
        forall|c: u32|
            c < k && c != e ==> ((cluster_count(s1, c) == 0) <==> (cluster_count(s2, c) == 0)),
    ensures
        empty_cluster_count(s2, k) + 1 == empty_cluster_count(s1, k),
    decreases k,
{
    if k - 1 == e {
        lemma_empty_count_congruent(s1, s2, (k - 1) as u32);
    } else {
        lemma_empty_count_drops(s1, s2, (k - 1) as u32, e);
    }
}

} // verus!
