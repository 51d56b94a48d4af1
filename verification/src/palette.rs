//! The cluster color table: one representative color per cluster.
use vstd::prelude::*;
use crate::flatten::{create_list, flat, flatten_list, lemma_unflat_flat, list_view, unflat};

verus! {

/// The sum of coordinate `d` over the first `n` members of a cluster.
pub open spec fn member_sum(members: Seq<usize>, points: Seq<[u32; 5]>, d: int, n: nat) -> int
    decreases n,
{
    if n == 0 {
        0
    } else {
        member_sum(members, points, d, (n - 1) as nat) + points[members[n - 1] as int][d]
    }
}

/// The truncated mean of coordinate `d` over a cluster; 0 for an empty cluster.
pub open spec fn mean_channel(members: Seq<usize>, points: Seq<[u32; 5]>, d: int) -> u8 {
    if members.len() == 0 {
        0
    } else {
        (member_sum(members, points, d, members.len()) / (members.len() as int)) as u8
    }
}

/// The representative color of a cluster: per channel the mean over its
/// points, rounded down. An empty cluster is black.
pub open spec fn mean_color(members: Seq<usize>, points: Seq<[u32; 5]>) -> [u8; 3] {
    [mean_channel(members, points, 2), mean_channel(members, points, 3), mean_channel(members, points, 4)]
}

/// The color table: the representative color of every cluster, by
/// ascending cluster number.
pub open spec fn color_table(clusters: Seq<Seq<usize>>, points: Seq<[u32; 5]>) -> Seq<[u8; 3]> {
    Seq::new(clusters.len(), |j: int| mean_color(clusters[j], points))
}

/// Whether the channel values of all points fit in a byte.
pub open spec fn byte_colors(points: Seq<[u32; 5]>) -> bool {
    forall|i: int|
        0 <= i < points.len() ==> (#[trigger] points[i])[2] <= 255 && points[i][3] <= 255
            && points[i][4] <= 255
}

/// Whether every entry of every cluster is an index below `n`.
pub open spec fn indices_below(clusters: Seq<Seq<usize>>, n: nat) -> bool {
    forall|j: int, a: int|
        0 <= j < clusters.len() && 0 <= a < clusters[j].len() ==> #[trigger] clusters[j][a] < n
}

/// A sum of byte values stays within 255 times their number.
pub proof fn lemma_member_sum_bound(members: Seq<usize>, points: Seq<[u32; 5]>, d: int, n: nat)
    requires
        n <= members.len(),
        2 <= d < 5,
        byte_colors(points),
        forall|a: int| 0 <= a < members.len() ==> members[a] < points.len(),
    ensures
        0 <= member_sum(members, points, d, n) <= 255 * n,
    decreases n,
{
    if n > 0 {
        lemma_member_sum_bound(members, points, d, (n - 1) as nat);
        let p = points[members[n - 1] as int];
        assert(p[2] <= 255 && p[3] <= 255 && p[4] <= 255);
    }
}

/// A mean of byte values is a byte value.
pub proof fn lemma_byte_mean(sum: int, count: int)
    requires
        count > 0,
        0 <= sum <= 255 * count,
    ensures
        0 <= sum / count <= 255,
{
    vstd::arithmetic::div_mod::lemma_div_is_ordered(sum, 255 * count, count);
    vstd::arithmetic::div_mod::lemma_div_is_ordered(0, sum, count);
    vstd::arithmetic::div_mod::lemma_div_multiples_vanish(255, count);
}

/// The sum over members that all hold the same value is that value times
/// their number.
pub proof fn lemma_member_sum_of_equal(
    members: Seq<usize>,
    points: Seq<[u32; 5]>,
    d: int,
    v: int,
    n: nat,
)
    requires
        n <= members.len(),
        0 <= d < 5,
        forall|a: int| 0 <= a < members.len() ==> members[a] < points.len(),
        forall|a: int| 0 <= a < members.len() ==> (#[trigger] points[members[a] as int])[d] == v,
    ensures
        member_sum(members, points, d, n) == n * v,
    decreases n,
{
    if n > 0 {
        lemma_member_sum_of_equal(members, points, d, v, (n - 1) as nat);
        assert(points[members[n - 1] as int][d] == v);
        assert((n - 1) * v + v == n * v) by (nonlinear_arith);
    } else {
        assert(n * v == 0) by (nonlinear_arith)
            requires
                n == 0,
        ;
    }
}

/// The representative color of a cluster whose points all have one color
/// is that color.
pub proof fn lemma_mean_of_one_color(members: Seq<usize>, points: Seq<[u32; 5]>, c: [u8; 3])
    requires
        members.len() > 0,
        forall|a: int| 0 <= a < members.len() ==> members[a] < points.len(),
        forall|a: int|
            0 <= a < members.len() ==> (#[trigger] points[members[a] as int])[2] == c[0]
                && points[members[a] as int][3] == c[1] && points[members[a] as int][4] == c[2],
    ensures
        mean_color(members, points) == c,
{
    let n = members.len();
    lemma_member_sum_of_equal(members, points, 2, c[0] as int, n);
    lemma_member_sum_of_equal(members, points, 3, c[1] as int, n);
    lemma_member_sum_of_equal(members, points, 4, c[2] as int, n);
    vstd::arithmetic::div_mod::lemma_div_multiples_vanish(c[0] as int, n as int);
    vstd::arithmetic::div_mod::lemma_div_multiples_vanish(c[1] as int, n as int);
    vstd::arithmetic::div_mod::lemma_div_multiples_vanish(c[2] as int, n as int);
    assert(n * (c[0] as int) == (c[0] as int) * n) by (nonlinear_arith);
    assert(n * (c[1] as int) == (c[1] as int) * n) by (nonlinear_arith);
    assert(n * (c[2] as int) == (c[2] as int) * n) by (nonlinear_arith);
    assert(mean_color(members, points) =~= c);
}

/// The representative color of one cluster.
fn cluster_color(members: &Vec<usize>, points: &Vec<[u32; 5]>) -> (c: [u8; 3])
    requires
        byte_colors(points@),
        forall|a: int| 0 <= a < members@.len() ==> members@[a] < points@.len(),
    ensures
        c == mean_color(members@, points@),
{
    let n = members.len();
    if n == 0 {
        return [0u8, 0u8, 0u8];
    }
    let mut r: u128 = 0;
    let mut g: u128 = 0;
    let mut b: u128 = 0;
    let mut a: usize = 0;
    while a < n
        invariant
            n == members@.len(),
            a <= n,
            byte_colors(points@),
            forall|t: int| 0 <= t < members@.len() ==> members@[t] < points@.len(),
            r == member_sum(members@, points@, 2, a as nat),
            g == member_sum(members@, points@, 3, a as nat),
            b == member_sum(members@, points@, 4, a as nat),
            r <= 255 * a,
            g <= 255 * a,
            b <= 255 * a,
        decreases n - a,
    {
        let p = &points[members[a]];
        r += p[2] as u128;
        g += p[3] as u128;
        b += p[4] as u128;
        a += 1;
    }
    proof {
        lemma_byte_mean(r as int, n as int);
        lemma_byte_mean(g as int, n as int);
        lemma_byte_mean(b as int, n as int);
    }
    let count = n as u128;
    [(r / count) as u8, (g / count) as u8, (b / count) as u8]
}

/// Computes the color table: for every cluster, by ascending number, the
/// mean color of its points, each channel rounded down.
pub fn calc_cluster_colors(cluster: &Vec<Vec<usize>>, points: &Vec<[u32; 5]>) -> (colors: Vec<
    [u8; 3],
>)
    requires
        byte_colors(points@),
        indices_below(cluster.deep_view(), points@.len()),
    ensures
        colors@ == color_table(cluster.deep_view(), points@),
{
    let ghost sets = cluster.deep_view();
    proof {
        assert forall|j: int| 0 <= j < cluster@.len() implies #[trigger] sets[j] == cluster@[j]@ by {
            assert(sets[j] =~= cluster@[j]@);
        }
    }
    let mut colors: Vec<[u8; 3]> = Vec::new();
    let mut j: usize = 0;
    while j < cluster.len()
        invariant
            byte_colors(points@),
            sets == cluster.deep_view(),
            indices_below(sets, points@.len()),
            forall|t: int| 0 <= t < cluster@.len() ==> #[trigger] sets[t] == cluster@[t]@,
            j <= cluster@.len(),
            colors@.len() == j,
            forall|t: int| 0 <= t < j ==> colors@[t] == mean_color(sets[t], points@),
        decreases cluster@.len() - j,
    {
        let members = &cluster[j];
        proof {
            assert forall|a: int| 0 <= a < members@.len() implies members@[a] < points@.len() by {
                assert(sets[j as int][a] < points@.len());
            }
        }
        colors.push(cluster_color(members, points));
        j += 1;
    }
    assert(colors@ =~= color_table(sets, points@));
    colors
}

/// The color table as scalars: three per cluster, by ascending cluster
/// number. The numbers themselves are not stored.
pub fn flatten_cc(colors: &Vec<[u8; 3]>) -> (scalars: Vec<u8>)
    ensures
        scalars@ == flat(colors@),
{
    flatten_list(colors)
}

/// The color table that scalars stand for; `None` when their number is not
/// a multiple of three.
pub fn create_cluster_colors(scalars: &Vec<u8>) -> (colors: Option<Vec<[u8; 3]>>)
    ensures
        list_view(colors) == unflat(scalars@),
{
    create_list(scalars)
}

/// Reading a written color table gives the same table.
pub proof fn lemma_color_table_round_trip(colors: Seq<[u8; 3]>)
    ensures
        unflat(flat(colors)) == Some(colors),
{
    lemma_unflat_flat(colors);
}

} // verus!
