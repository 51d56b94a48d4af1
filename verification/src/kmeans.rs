//! K-means clustering of five-dimensional points by Lloyd's method, in
//! exact integer arithmetic.
//!
//! Centroids start as sample points: the first point, then, one by one, the
//! point that lies farthest from the centroids chosen so far. Each round
//! assigns every point to its nearest centroid, the lowest-numbered one on
//! ties, and moves each centroid to the truncated mean of its points; a
//! centroid without points moves to the point that lies farthest from its
//! own centroid. The rounds end when no point changes cluster, or after
//! `MAX_ITERATIONS`.
use vstd::prelude::*;
use crate::raster::lemma_product_fits;

verus! {

/// The largest number of rounds after the first assignment.
pub const MAX_ITERATIONS: usize = 50;

pub open spec fn sq(a: int) -> int {
    a * a
}

/// The squared Euclidean distance of two points.
pub open spec fn dist2(p: [u32; 5], c: [u32; 5]) -> int {
    sq(p[0] - c[0]) + sq(p[1] - c[1]) + sq(p[2] - c[2]) + sq(p[3] - c[3]) + sq(p[4] - c[4])
}

/// The first among the centroids `0..m` that lies nearest to `p`.
pub open spec fn nearest_among(p: [u32; 5], cs: Seq<[u32; 5]>, m: nat) -> int
    decreases m,
{
    if m <= 1 {
        0
    } else {
        let j = nearest_among(p, cs, (m - 1) as nat);
        if dist2(p, cs[m - 1]) < dist2(p, cs[j]) {
            m - 1
        } else {
            j
        }
    }
}

/// The first centroid that lies nearest to `p`.
pub open spec fn nearest(p: [u32; 5], cs: Seq<[u32; 5]>) -> int {
    nearest_among(p, cs, cs.len())
}

/// For every point the number of its nearest centroid.
pub open spec fn assignment(points: Seq<[u32; 5]>, cs: Seq<[u32; 5]>) -> Seq<usize> {
    Seq::new(points.len(), |i: int| nearest(points[i], cs) as usize)
}

/// How many of the first `n` points carry label `j`.
pub open spec fn count_in(labels: Seq<usize>, j: int, n: nat) -> nat
    decreases n,
{
    if n == 0 {
        0
    } else if labels[n - 1] == j {
        count_in(labels, j, (n - 1) as nat) + 1
    } else {
        count_in(labels, j, (n - 1) as nat)
    }
}

/// The sum of coordinate `d` over those of the first `n` points that carry
/// label `j`.
pub open spec fn sum_in(points: Seq<[u32; 5]>, labels: Seq<usize>, j: int, d: int, n: nat) -> int
    decreases n,
{
    if n == 0 {
        0
    } else if labels[n - 1] == j {
        sum_in(points, labels, j, d, (n - 1) as nat) + points[n - 1][d]
    } else {
        sum_in(points, labels, j, d, (n - 1) as nat)
    }
}

/// The squared distance of point `i` to the centroid of its own cluster.
pub open spec fn spread(points: Seq<[u32; 5]>, labels: Seq<usize>, cs: Seq<[u32; 5]>, i: int) -> int {
    dist2(points[i], cs[labels[i] as int])
}

/// The first among the points `0..n` that lies farthest from its own centroid.
pub open spec fn farthest_among(
    points: Seq<[u32; 5]>,
    labels: Seq<usize>,
    cs: Seq<[u32; 5]>,
    n: nat,
) -> int
    decreases n,
{
    if n <= 1 {
        0
    } else {
        let i = farthest_among(points, labels, cs, (n - 1) as nat);
        if spread(points, labels, cs, n - 1) > spread(points, labels, cs, i) {
            n - 1
        } else {
            i
        }
    }
}

/// The starting centroids: the first point, then, one by one, the first
/// among the points that lie farthest from their nearest centroid so far.
pub open spec fn initial_centroids(points: Seq<[u32; 5]>, k: nat) -> Seq<[u32; 5]>
    decreases k,
{
    if k == 0 {
        Seq::empty()
    } else if k == 1 {
        seq![points[0]]
    } else {
        let chosen = initial_centroids(points, (k - 1) as nat);
        chosen.push(
            points[farthest_among(points, assignment(points, chosen), chosen, points.len())],
        )
    }
}

/// The truncated mean of coordinate `d` over the points with label `j`.
pub open spec fn mean_of(points: Seq<[u32; 5]>, labels: Seq<usize>, j: int, d: int) -> u32 {
    (sum_in(points, labels, j, d, points.len()) / (count_in(labels, j, points.len()) as int)) as u32
}

/// Where centroid `j` moves: to the mean of its points, or, having none, to
/// the point farthest from its own centroid.
pub open spec fn updated_centroid(
    points: Seq<[u32; 5]>,
    labels: Seq<usize>,
    cs: Seq<[u32; 5]>,
    j: int,
) -> [u32; 5] {
    if count_in(labels, j, points.len()) == 0 {
        points[farthest_among(points, labels, cs, points.len())]
    } else {
        [
            mean_of(points, labels, j, 0),
            mean_of(points, labels, j, 1),
            mean_of(points, labels, j, 2),
            mean_of(points, labels, j, 3),
            mean_of(points, labels, j, 4),
        ]
    }
}

pub open spec fn updated_centroids(
    points: Seq<[u32; 5]>,
    labels: Seq<usize>,
    cs: Seq<[u32; 5]>,
) -> Seq<[u32; 5]> {
    Seq::new(cs.len(), |j: int| updated_centroid(points, labels, cs, j))
}

/// The labels after at most `rounds` further rounds.
pub open spec fn lloyd(
    points: Seq<[u32; 5]>,
    labels: Seq<usize>,
    cs: Seq<[u32; 5]>,
    rounds: nat,
) -> Seq<usize>
    decreases rounds,
{
    if rounds == 0 {
        labels
    } else {
        let moved = updated_centroids(points, labels, cs);
        let next = assignment(points, moved);
        if next == labels {
            labels
        } else {
            lloyd(points, next, moved, (rounds - 1) as nat)
        }
    }
}

/// The cluster number that k-means gives to every point.
pub open spec fn kmeans_labels(points: Seq<[u32; 5]>, k: nat) -> Seq<usize> {
    if points.len() == 0 {
        Seq::empty()
    } else {
        let cs = initial_centroids(points, k);
        lloyd(points, assignment(points, cs), cs, MAX_ITERATIONS as nat)
    }
}

/// Those of the indices `0..n` that carry label `j`, in ascending order.
pub open spec fn members(labels: Seq<usize>, j: int, n: nat) -> Seq<usize>
    decreases n,
{
    if n == 0 {
        Seq::empty()
    } else if labels[n - 1] == j {
        members(labels, j, (n - 1) as nat).push((n - 1) as usize)
    } else {
        members(labels, j, (n - 1) as nat)
    }
}

/// The clusters `0..k` that a labelling stands for.
pub open spec fn clusters_of(labels: Seq<usize>, k: nat) -> Seq<Seq<usize>> {
    Seq::new(k, |j: int| members(labels, j, labels.len()))
}

/// The nearest centroid is one of the centroids, none is nearer, and none
/// before it is as near.
pub proof fn lemma_nearest(p: [u32; 5], cs: Seq<[u32; 5]>, m: nat)
    requires
        1 <= m,
    ensures
        0 <= nearest_among(p, cs, m) < m,
        forall|j: int| 0 <= j < m ==> dist2(p, cs[nearest_among(p, cs, m)]) <= #[trigger] dist2(p, cs[j]),
        forall|j: int|
            0 <= j < nearest_among(p, cs, m) ==> dist2(p, cs[nearest_among(p, cs, m)]) < #[trigger] dist2(
                p,
                cs[j],
            ),
    decreases m,
{
    if m > 1 {
        lemma_nearest(p, cs, (m - 1) as nat);
    }
}

/// The square of a difference of two coordinates.
fn sq_diff(a: u32, b: u32) -> (r: u128)
    ensures
        r == sq(a - b),
        r <= 0xFFFF_FFFE_0000_0001,
{
    let d: u64 = if a >= b { (a - b) as u64 } else { (b - a) as u64 };
    proof {
        lemma_product_fits(d as int, d as int);
        assert(sq(a - b) == d * d) by (nonlinear_arith)
            requires
                d == a - b || d == b - a,
        ;
    }
    (d as u128) * (d as u128)
}

/// The squared Euclidean distance of two points.
pub fn distance(p: &[u32; 5], c: &[u32; 5]) -> (r: u128)
    ensures
        r == dist2(*p, *c),
{
    sq_diff(p[0], c[0]) + sq_diff(p[1], c[1]) + sq_diff(p[2], c[2]) + sq_diff(p[3], c[3])
        + sq_diff(p[4], c[4])
}

/// The number of the first centroid that lies nearest to `p`.
pub fn nearest_centroid(p: &[u32; 5], cs: &Vec<[u32; 5]>) -> (j: usize)
    requires
        cs@.len() >= 1,
    ensures
        j == nearest(*p, cs@),
        j < cs@.len(),
{
    let mut best: usize = 0;
    let mut best_d: u128 = distance(p, &cs[0]);
    let mut m: usize = 1;
    while m < cs.len()
        invariant
            1 <= m <= cs@.len(),
            best < m,
            best == nearest_among(*p, cs@, m as nat),
            best_d == dist2(*p, cs@[best as int]),
        decreases cs@.len() - m,
    {
        let d = distance(p, &cs[m]);
        if d < best_d {
            best = m;
            best_d = d;
        }
        m += 1;
    }
    best
}

/// Assigns every point to its nearest centroid.
pub fn assign_points(points: &Vec<[u32; 5]>, cs: &Vec<[u32; 5]>) -> (labels: Vec<usize>)
    requires
        cs@.len() >= 1,
    ensures
        labels@ == assignment(points@, cs@),
        forall|i: int| 0 <= i < labels@.len() ==> labels@[i] < cs@.len(),
{
    let mut labels: Vec<usize> = Vec::new();
    let mut i: usize = 0;
    while i < points.len()
        invariant
            cs@.len() >= 1,
            i <= points@.len(),
            labels@.len() == i,
            forall|t: int| 0 <= t < i ==> labels@[t] == nearest(points@[t], cs@) as usize,
            forall|t: int| 0 <= t < i ==> labels@[t] < cs@.len(),
        decreases points@.len() - i,
    {
        let j = nearest_centroid(&points[i], cs);
        labels.push(j);
        i += 1;
    }
    assert(labels@ =~= assignment(points@, cs@));
    labels
}

/// The count of a label among points, and the sum of a coordinate over
/// them, stay within what their number allows.
pub proof fn lemma_sum_bounds(points: Seq<[u32; 5]>, labels: Seq<usize>, j: int, d: int, n: nat)
    requires
        n <= points.len(),
        0 <= d < 5,
    ensures
        count_in(labels, j, n) <= n,
        0 <= sum_in(points, labels, j, d, n) <= count_in(labels, j, n) * 0xFFFF_FFFF,
    decreases n,
{
    if n > 0 {
        lemma_sum_bounds(points, labels, j, d, (n - 1) as nat);
    }
}

/// A mean of values that fit in 32 bits fits in 32 bits.
pub proof fn lemma_mean_fits(sum: int, count: int)
    requires
        count > 0,
        0 <= sum <= count * 0xFFFF_FFFF,
    ensures
        0 <= sum / count <= 0xFFFF_FFFF,
{
    vstd::arithmetic::div_mod::lemma_div_is_ordered(sum, count * 0xFFFF_FFFF, count);
    vstd::arithmetic::div_mod::lemma_div_is_ordered(0, sum, count);
    vstd::arithmetic::div_mod::lemma_div_multiples_vanish(0xFFFF_FFFF, count);
    assert(count * 0xFFFF_FFFF == 0xFFFF_FFFF * count) by (nonlinear_arith);
}

/// The truncated mean of the points with label `j`; `None` when there are none.
fn cluster_mean(points: &Vec<[u32; 5]>, labels: &Vec<usize>, j: usize) -> (r: Option<[u32; 5]>)
    requires
        labels@.len() == points@.len(),
    ensures
        r is None <==> count_in(labels@, j as int, points@.len()) == 0,
        r matches Some(c) ==> c == [
            mean_of(points@, labels@, j as int, 0),
            mean_of(points@, labels@, j as int, 1),
            mean_of(points@, labels@, j as int, 2),
            mean_of(points@, labels@, j as int, 3),
            mean_of(points@, labels@, j as int, 4),
        ],
{
    let n = points.len();
    let mut count: usize = 0;
    let mut s0: u128 = 0;
    let mut s1: u128 = 0;
    let mut s2: u128 = 0;
    let mut s3: u128 = 0;
    let mut s4: u128 = 0;
    let mut i: usize = 0;
    while i < n
        invariant
            n == points@.len(),
            labels@.len() == points@.len(),
            i <= n,
            count == count_in(labels@, j as int, i as nat),
            count <= i,
            s0 == sum_in(points@, labels@, j as int, 0, i as nat),
            s1 == sum_in(points@, labels@, j as int, 1, i as nat),
            s2 == sum_in(points@, labels@, j as int, 2, i as nat),
            s3 == sum_in(points@, labels@, j as int, 3, i as nat),
            s4 == sum_in(points@, labels@, j as int, 4, i as nat),
            s0 <= count * 0xFFFF_FFFF,
            s1 <= count * 0xFFFF_FFFF,
            s2 <= count * 0xFFFF_FFFF,
            s3 <= count * 0xFFFF_FFFF,
            s4 <= count * 0xFFFF_FFFF,
        decreases n - i,
    {
        if labels[i] == j {
            let p = &points[i];
            count += 1;
            s0 += p[0] as u128;
            s1 += p[1] as u128;
            s2 += p[2] as u128;
            s3 += p[3] as u128;
            s4 += p[4] as u128;
        }
        i += 1;
    }
    if count == 0 {
        None
    } else {
        proof {
            lemma_mean_fits(s0 as int, count as int);
            lemma_mean_fits(s1 as int, count as int);
            lemma_mean_fits(s2 as int, count as int);
            lemma_mean_fits(s3 as int, count as int);
            lemma_mean_fits(s4 as int, count as int);
        }
        let c = count as u128;
        Some([(s0 / c) as u32, (s1 / c) as u32, (s2 / c) as u32, (s3 / c) as u32, (s4 / c) as u32])
    }
}

/// The index of the first point that lies farthest from its own centroid.
fn farthest_point(points: &Vec<[u32; 5]>, labels: &Vec<usize>, cs: &Vec<[u32; 5]>) -> (r: usize)
    requires
        points@.len() >= 1,
        labels@.len() == points@.len(),
        forall|i: int| 0 <= i < labels@.len() ==> labels@[i] < cs@.len(),
    ensures
        r == farthest_among(points@, labels@, cs@, points@.len()),
        r < points@.len(),
{
    let mut best: usize = 0;
    let mut best_d: u128 = distance(&points[0], &cs[labels[0]]);
    let mut i: usize = 1;
    while i < points.len()
        invariant
            1 <= i <= points@.len(),
            labels@.len() == points@.len(),
            forall|t: int| 0 <= t < labels@.len() ==> labels@[t] < cs@.len(),
            best < i,
            best == farthest_among(points@, labels@, cs@, i as nat),
            best_d == spread(points@, labels@, cs@, best as int),
        decreases points@.len() - i,
    {
        let d = distance(&points[i], &cs[labels[i]]);
        if d > best_d {
            best = i;
            best_d = d;
        }
        i += 1;
    }
    best
}

/// Moves every centroid: to the mean of its points, or, having none, to
/// the point farthest from its own centroid.
pub fn update_centroids(points: &Vec<[u32; 5]>, labels: &Vec<usize>, cs: &Vec<[u32; 5]>) -> (moved:
    Vec<[u32; 5]>)
    requires
        points@.len() >= 1,
        labels@.len() == points@.len(),
        forall|i: int| 0 <= i < labels@.len() ==> labels@[i] < cs@.len(),
    ensures
        moved@ == updated_centroids(points@, labels@, cs@),
{
    let far = farthest_point(points, labels, cs);
    let mut moved: Vec<[u32; 5]> = Vec::new();
    let mut j: usize = 0;
    while j < cs.len()
        invariant
            j <= cs@.len(),
            labels@.len() == points@.len(),
            far == farthest_among(points@, labels@, cs@, points@.len()),
            far < points@.len(),
            moved@.len() == j,
            forall|t: int| 0 <= t < j ==> moved@[t] == updated_centroid(points@, labels@, cs@, t),
        decreases cs@.len() - j,
    {
        let c = match cluster_mean(points, labels, j) {
            Some(mean) => mean,
            None => points[far],
        };
        moved.push(c);
        j += 1;
    }
    assert(moved@ =~= updated_centroids(points@, labels@, cs@));
    moved
}

/// There are `k` starting centroids.
pub proof fn lemma_initial_centroids_len(points: Seq<[u32; 5]>, k: nat)
    ensures
        initial_centroids(points, k).len() == k,
    decreases k,
{
    if k > 1 {
        lemma_initial_centroids_len(points, (k - 1) as nat);
    }
}

/// The starting centroids: the first point, then, one by one, the point
/// that lies farthest from the centroids chosen so far.
pub fn sample_centroids(points: &Vec<[u32; 5]>, k: usize) -> (cs: Vec<[u32; 5]>)
    requires
        points@.len() >= 1,
        k >= 1,
    ensures
        cs@ == initial_centroids(points@, k as nat),
        cs@.len() == k,
{
    let mut cs: Vec<[u32; 5]> = Vec::new();
    cs.push(points[0]);
    assert(cs@ =~= initial_centroids(points@, 1));
    let mut j: usize = 1;
    while j < k
        invariant
            points@.len() >= 1,
            1 <= j <= k,
            cs@.len() == j,
            cs@ == initial_centroids(points@, j as nat),
        decreases k - j,
    {
        let labels = assign_points(points, &cs);
        let far = farthest_point(points, &labels, &cs);
        cs.push(points[far]);
        j += 1;
    }
    cs
}

/// Whether two labellings are the same.
fn same_labels(a: &Vec<usize>, b: &Vec<usize>) -> (r: bool)
    ensures
        r == (a@ == b@),
{
    if a.len() != b.len() {
        return false;
    }
    let mut i: usize = 0;
    while i < a.len()
        invariant
            a@.len() == b@.len(),
            i <= a@.len(),
            forall|t: int| 0 <= t < i ==> a@[t] == b@[t],
        decreases a@.len() - i,
    {
        if a[i] != b[i] {
            return false;
        }
        i += 1;
    }
    assert(a@ =~= b@);
    true
}

/// The cluster number of every point of a non-empty list.
pub fn label_points(points: &Vec<[u32; 5]>, k: usize) -> (labels: Vec<usize>)
    requires
        points@.len() >= 1,
        k >= 1,
    ensures
        labels@ == kmeans_labels(points@, k as nat),
        labels@.len() == points@.len(),
        forall|i: int| 0 <= i < labels@.len() ==> labels@[i] < k,
{
    let mut cs = sample_centroids(points, k);
    let mut labels = assign_points(points, &cs);
    let mut rounds: usize = MAX_ITERATIONS;
    let mut settled = false;
    while rounds > 0 && !settled
        invariant
            points@.len() >= 1,
            cs@.len() == k,
            k >= 1,
            labels@.len() == points@.len(),
            forall|i: int| 0 <= i < labels@.len() ==> labels@[i] < k,
            settled ==> labels@ == kmeans_labels(points@, k as nat),
            !settled ==> lloyd(points@, labels@, cs@, rounds as nat) == kmeans_labels(
                points@,
                k as nat,
            ),
        decreases (if settled { 0int } else { rounds + 1 }),
    {
        let moved = update_centroids(points, &labels, &cs);
        let next = assign_points(points, &moved);
        if same_labels(&next, &labels) {
            settled = true;
        } else {
            labels = next;
            cs = moved;
            rounds -= 1;
        }
    }
    labels
}

/// The indices that carry label `j`, in ascending order.
fn collect_members(labels: &Vec<usize>, j: usize) -> (c: Vec<usize>)
    ensures
        c@ == members(labels@, j as int, labels@.len()),
{
    let mut c: Vec<usize> = Vec::new();
    let mut i: usize = 0;
    while i < labels.len()
        invariant
            i <= labels@.len(),
            c@ == members(labels@, j as int, i as nat),
        decreases labels@.len() - i,
    {
        if labels[i] == j {
            c.push(i);
        }
        i += 1;
    }
    c
}

/// The clusters `0..k` of a labelling, each as the ascending list of its
/// point indices.
pub fn clusters_from_labels(labels: &Vec<usize>, k: usize) -> (clusters: Vec<Vec<usize>>)
    ensures
        clusters.deep_view() == clusters_of(labels@, k as nat),
{
    let mut clusters: Vec<Vec<usize>> = Vec::new();
    let mut j: usize = 0;
    while j < k
        invariant
            j <= k,
            clusters@.len() == j,
            forall|t: int| 0 <= t < j ==> clusters@[t]@ == members(labels@, t, labels@.len()),
        decreases k - j,
    {
        clusters.push(collect_members(labels, j));
        j += 1;
    }
    proof {
        let want = clusters_of(labels@, k as nat);
        assert(clusters.deep_view().len() == want.len());
        assert forall|t: int| 0 <= t < k implies clusters.deep_view()[t] == want[t] by {
            assert(clusters.deep_view()[t] =~= clusters@[t]@);
        }
        assert(clusters.deep_view() =~= want);
    }
    clusters
}

/// Whether index `i` is an entry of one of the clusters.
pub open spec fn covered(clusters: Seq<Seq<usize>>, i: int) -> bool {
    exists|j: int, a: int|
        0 <= j < clusters.len() && 0 <= a < clusters[j].len() && #[trigger] clusters[j][a] == i
}

/// Whether `clusters` split the indices `0..n`: every entry is such an
/// index, every index is an entry, and no index occurs twice, neither in
/// one cluster nor in two.
pub open spec fn is_partition(clusters: Seq<Seq<usize>>, n: nat) -> bool {
    &&& forall|j: int, a: int|
        0 <= j < clusters.len() && 0 <= a < clusters[j].len() ==> #[trigger] clusters[j][a] < n
    &&& forall|i: int| 0 <= i < n ==> #[trigger] covered(clusters, i)
    &&& forall|j1: int, a1: int, j2: int, a2: int|
        0 <= j1 < clusters.len() && 0 <= a1 < clusters[j1].len() && 0 <= j2 < clusters.len() && 0
            <= a2 < clusters[j2].len() && #[trigger] clusters[j1][a1] == #[trigger] clusters[j2][a2]
            ==> j1 == j2 && a1 == a2
}

/// The sum of the sizes of all clusters.
pub open spec fn total_size(clusters: Seq<Seq<usize>>) -> nat
    decreases clusters.len(),
{
    if clusters.len() == 0 {
        0
    } else {
        total_size(clusters.drop_last()) + clusters.last().len()
    }
}

/// How many of the first `n` points carry a label below `k`.
pub open spec fn count_below(labels: Seq<usize>, k: nat, n: nat) -> nat
    decreases k,
{
    if k == 0 {
        0
    } else {
        count_below(labels, (k - 1) as nat, n) + count_in(labels, k - 1, n)
    }
}

/// The members of a label are exactly the indices that carry it, each once
/// and in ascending order.
pub proof fn lemma_members(labels: Seq<usize>, j: int, n: nat)
    requires
        n <= labels.len(),
        n <= usize::MAX,
    ensures
        members(labels, j, n).len() == count_in(labels, j, n),
        forall|a: int|
            0 <= a < members(labels, j, n).len() ==> (#[trigger] members(labels, j, n)[a]) < n
                && labels[members(labels, j, n)[a] as int] == j,
        forall|a: int, b: int|
            0 <= a < b < members(labels, j, n).len() ==> (#[trigger] members(labels, j, n)[a])
                < (#[trigger] members(labels, j, n)[b]),
        forall|i: int|
            0 <= i < n && labels[i] == j ==> exists|a: int|
                0 <= a < members(labels, j, n).len() && #[trigger] members(labels, j, n)[a] == i,
    decreases n,
{
    if n > 0 {
        lemma_members(labels, j, (n - 1) as nat);
        let prev = members(labels, j, (n - 1) as nat);
        let cur = members(labels, j, n);
        assert forall|i: int| 0 <= i < n && labels[i] == j implies exists|a: int|
            0 <= a < cur.len() && #[trigger] cur[a] == i by {
            if i < n - 1 {
                let a = choose|a: int| 0 <= a < prev.len() && #[trigger] prev[a] == i;
                assert(cur[a] == i);
            } else {
                assert(cur[cur.len() - 1] == i);
            }
        }
    }
}

/// One more point adds one to the number of points with a label below `k`
/// exactly when its own label is below `k`.
pub proof fn lemma_count_below_step(labels: Seq<usize>, k: nat, n: nat)
    requires
        1 <= n <= labels.len(),
    ensures
        count_below(labels, k, n) == count_below(labels, k, (n - 1) as nat) + (if labels[n - 1]
            < k {
            1nat
        } else {
            0nat
        }),
    decreases k,
{
    if k > 0 {
        lemma_count_below_step(labels, (k - 1) as nat, n);
    }
}

/// When all labels stay below `k`, the labels below `k` count every point.
pub proof fn lemma_count_below(labels: Seq<usize>, k: nat, n: nat)
    requires
        n <= labels.len(),
        forall|i: int| 0 <= i < n ==> labels[i] < k,
    ensures
        count_below(labels, k, n) == n,
    decreases n,
{
    if n > 0 {
        lemma_count_below(labels, k, (n - 1) as nat);
        lemma_count_below_step(labels, k, n);
    } else {
        lemma_count_below_empty(labels, k);
    }
}

/// No label is counted among no points.
pub proof fn lemma_count_below_empty(labels: Seq<usize>, k: nat)
    ensures
        count_below(labels, k, 0) == 0,
    decreases k,
{
    if k > 0 {
        lemma_count_below_empty(labels, (k - 1) as nat);
    }
}

/// The sizes of the clusters `0..k` add up to the number of points with a
/// label below `k`.
pub proof fn lemma_total_size(labels: Seq<usize>, k: nat)
    requires
        labels.len() <= usize::MAX,
    ensures
        total_size(clusters_of(labels, k)) == count_below(labels, k, labels.len()),
    decreases k,
{
    if k > 0 {
        lemma_total_size(labels, (k - 1) as nat);
        lemma_members(labels, k - 1, labels.len());
        assert(clusters_of(labels, k).drop_last() =~= clusters_of(labels, (k - 1) as nat));
    }
}

/// The clusters of a labelling whose labels stay below `k` split the
/// points: they are pairwise disjoint, cover every index, and their sizes
/// add up to the number of points.
pub proof fn lemma_clusters_partition(labels: Seq<usize>, k: nat)
    requires
        labels.len() <= usize::MAX,
        forall|i: int| 0 <= i < labels.len() ==> labels[i] < k,
    ensures
        is_partition(clusters_of(labels, k), labels.len()),
        total_size(clusters_of(labels, k)) == labels.len(),
{
    let n = labels.len();
    let clusters = clusters_of(labels, k);
    lemma_total_size(labels, k);
    lemma_count_below(labels, k, n);
    assert forall|j: int, a: int|
        0 <= j < clusters.len() && 0 <= a < clusters[j].len() implies #[trigger] clusters[j][a]
        < n by {
        lemma_members(labels, j, n);
    }
    assert forall|i: int| 0 <= i < n implies #[trigger] covered(clusters, i) by {
        let j = labels[i] as int;
        lemma_members(labels, j, n);
        let a = choose|a: int|
            0 <= a < members(labels, j, n).len() && #[trigger] members(labels, j, n)[a] == i;
        assert(clusters[j][a] == i);
    }
    assert forall|j1: int, a1: int, j2: int, a2: int|
        0 <= j1 < clusters.len() && 0 <= a1 < clusters[j1].len() && 0 <= j2 < clusters.len() && 0
            <= a2 < clusters[j2].len() && #[trigger] clusters[j1][a1]
            == #[trigger] clusters[j2][a2] implies j1 == j2 && a1 == a2 by {
        lemma_members(labels, j1, n);
        lemma_members(labels, j2, n);
        if a1 < a2 {
            assert(members(labels, j1, n)[a1] < members(labels, j1, n)[a2]);
        } else if a2 < a1 {
            assert(members(labels, j1, n)[a2] < members(labels, j1, n)[a1]);
        }
    }
}

/// In the clusters of a labelling, every point stands in the cluster of
/// its label.
pub proof fn lemma_cluster_of_point(labels: Seq<usize>, k: nat, j: int, a: int)
    requires
        labels.len() <= usize::MAX,
        0 <= j < k,
        0 <= a < clusters_of(labels, k)[j].len(),
    ensures
        clusters_of(labels, k)[j][a] < labels.len(),
        labels[clusters_of(labels, k)[j][a] as int] == j,
{
    lemma_members(labels, j, labels.len());
}

/// Clusters points into `k` groups by Lloyd's method. The groups are
/// pairwise disjoint, together they hold every point index once, and so
/// their sizes add up to the number of points. No clusters come back for
/// `k == 0`.
pub fn kmeans_clustering(cloud: &Vec<[u32; 5]>, k: usize) -> (clusters: Vec<Vec<usize>>)
    ensures
        clusters.deep_view() == clusters_of(kmeans_labels(cloud@, k as nat), k as nat),
        k >= 1 ==> is_partition(clusters.deep_view(), cloud@.len()),
        k >= 1 ==> total_size(clusters.deep_view()) == cloud@.len(),
{
    if k == 0 {
        let clusters: Vec<Vec<usize>> = Vec::new();
        assert(clusters.deep_view() =~= clusters_of(kmeans_labels(cloud@, 0), 0));
        return clusters;
    }
    let n = cloud.len();
    let labels = if n == 0 {
        Vec::new()
    } else {
        label_points(cloud, k)
    };
    proof {
        assert(labels@ =~= kmeans_labels(cloud@, k as nat));
        lemma_clusters_partition(labels@, k as nat);
    }
    clusters_from_labels(&labels, k)
}

/// Lloyd's rounds keep one label per point, each below the number of
/// centroids.
pub proof fn lemma_lloyd_labels(
    points: Seq<[u32; 5]>,
    labels: Seq<usize>,
    cs: Seq<[u32; 5]>,
    rounds: nat,
)
    requires
        1 <= cs.len() <= usize::MAX,
        labels.len() == points.len(),
        forall|i: int| 0 <= i < labels.len() ==> labels[i] < cs.len(),
    ensures
        lloyd(points, labels, cs, rounds).len() == points.len(),
        forall|i: int|
            0 <= i < points.len() ==> (#[trigger] lloyd(points, labels, cs, rounds)[i]) < cs.len(),
    decreases rounds,
{
    if rounds > 0 {
        let moved = updated_centroids(points, labels, cs);
        let next = assignment(points, moved);
        if next != labels {
            assert forall|i: int| 0 <= i < next.len() implies next[i] < moved.len() by {
                lemma_nearest(points[i], moved, moved.len());
            }
            lemma_lloyd_labels(points, next, moved, (rounds - 1) as nat);
        }
    }
}

/// K-means gives every point one label below `k`.
pub proof fn lemma_kmeans_labels(points: Seq<[u32; 5]>, k: nat)
    requires
        1 <= k <= usize::MAX,
    ensures
        kmeans_labels(points, k).len() == points.len(),
        forall|i: int| 0 <= i < points.len() ==> (#[trigger] kmeans_labels(points, k)[i]) < k,
{
    if points.len() > 0 {
        let cs = initial_centroids(points, k);
        lemma_initial_centroids_len(points, k);
        let first = assignment(points, cs);
        assert forall|i: int| 0 <= i < first.len() implies first[i] < cs.len() by {
            lemma_nearest(points[i], cs, cs.len());
        }
        lemma_lloyd_labels(points, first, cs, MAX_ITERATIONS as nat);
    }
}

} // verus!
