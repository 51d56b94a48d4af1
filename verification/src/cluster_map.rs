//! The cluster map: cluster membership scattered back to pixel positions.
use vstd::prelude::*;
use crate::cloud::is_cloud_of;
use crate::grid::ClusterMap;
use crate::kmeans::{clusters_of, is_partition, lemma_cluster_of_point, lemma_clusters_partition};
use crate::raster::lemma_product_fits;

verus! {

/// Builds the raster of cluster ids: every point of every cluster writes
/// the cluster's number at its own position. The clusters split the
/// points, so every pixel receives exactly one id.
pub fn calc_cluster_map(cluster: &Vec<Vec<usize>>, points: &Vec<[u32; 5]>, dims: [u32; 2]) -> (map:
    ClusterMap)
    requires
        is_cloud_of(points@, dims[0] as nat, dims[1] as nat),
        is_partition(cluster.deep_view(), points@.len()),
    ensures
        map.wf(),
        map.width == dims[0],
        map.height == dims[1],
        forall|i: int| 0 <= i < map.ids@.len() ==> map.ids@[i] < cluster@.len(),
        forall|j: int, a: int|
            0 <= j < cluster.deep_view().len() && 0 <= a < cluster.deep_view()[j].len()
                ==> map.ids@[(#[trigger] cluster.deep_view()[j][a]) as int] == j,
{
    let width = dims[0];
    let height = dims[1];
    let total = points.len();
    let ghost sets = cluster.deep_view();
    proof {
        assert forall|j: int| 0 <= j < cluster@.len() implies #[trigger] sets[j] == cluster@[j]@ by {
            assert(sets[j] =~= cluster@[j]@);
        }
    }
    let mut ids: Vec<usize> = vec![0usize; total];
    let mut j: usize = 0;
    while j < cluster.len()
        invariant
            width == dims[0],
            height == dims[1],
            total == points@.len(),
            is_cloud_of(points@, width as nat, height as nat),
            sets == cluster.deep_view(),
            is_partition(sets, points@.len()),
            forall|t: int| 0 <= t < cluster@.len() ==> #[trigger] sets[t] == cluster@[t]@,
            j <= cluster@.len(),
            ids@.len() == total,
            forall|t: int, a: int|
                0 <= t < j && 0 <= a < sets[t].len() ==> ids@[(#[trigger] sets[t][a]) as int] == t,
        decreases cluster@.len() - j,
    {
        let members = &cluster[j];
        let mut a: usize = 0;
        while a < members.len()
            invariant
                width == dims[0],
                height == dims[1],
                total == points@.len(),
                is_cloud_of(points@, width as nat, height as nat),
                sets == cluster.deep_view(),
                is_partition(sets, points@.len()),
                forall|t: int| 0 <= t < cluster@.len() ==> #[trigger] sets[t] == cluster@[t]@,
                j < cluster@.len(),
                members@ == sets[j as int],
                a <= members@.len(),
                ids@.len() == total,
                forall|t: int, b: int|
                    0 <= t < j && 0 <= b < sets[t].len() ==> ids@[(#[trigger] sets[t][b]) as int]
                        == t,
                forall|b: int| 0 <= b < a ==> ids@[(#[trigger] sets[j as int][b]) as int] == j,
            decreases members@.len() - a,
        {
            let i = members[a];
            assert(i == sets[j as int][a as int]);
            let p = &points[i];
            proof {
                let w = width as int;
                crate::raster::lemma_index_position(w, height as int, i as int);
                assert(p[0] == (i as int) % w && p[1] == (i as int) / w);
            }
            let at: usize = (p[1] as usize) * (width as usize) + (p[0] as usize);
            let ghost before = ids@;
            ids.set(at, j);
            proof {
                assert forall|t: int, b: int| 0 <= t < j && 0 <= b < sets[t].len() implies ids@[(
                #[trigger] sets[t][b]) as int] == t by {
                    assert(before[sets[t][b] as int] == t);
                }
                assert forall|b: int| 0 <= b < a + 1 implies ids@[(
                #[trigger] sets[j as int][b]) as int] == j by {
                    if b < a {
                        assert(before[sets[j as int][b] as int] == j);
                    }
                }
            }
            a += 1;
        }
        j += 1;
    }
    proof {
        lemma_product_fits(width as int, height as int);
        assert forall|i: int| 0 <= i < ids@.len() implies ids@[i] < cluster@.len() by {
            assert(crate::kmeans::covered(sets, i));
            let (t, a) = choose|t: int, a: int|
                0 <= t < sets.len() && 0 <= a < sets[t].len() && #[trigger] sets[t][a] == i;
            assert(ids@[sets[t][a] as int] == t);
        }
    }
    ClusterMap { width, height, ids }
}

/// The cluster map of the clusters of a labelling holds the labelling.
pub proof fn lemma_map_of_labels(labels: Seq<usize>, k: nat, ids: Seq<usize>)
    requires
        labels.len() <= usize::MAX,
        ids.len() == labels.len(),
        forall|i: int| 0 <= i < labels.len() ==> labels[i] < k,
        forall|j: int, a: int|
            0 <= j < k && 0 <= a < clusters_of(labels, k)[j].len() ==> ids[(
            #[trigger] clusters_of(labels, k)[j][a]) as int] == j,
    ensures
        ids == labels,
{
    let clusters = clusters_of(labels, k);
    lemma_clusters_partition(labels, k);
    assert forall|i: int| 0 <= i < labels.len() implies ids[i] == labels[i] by {
        assert(crate::kmeans::covered(clusters, i));
        let (j, a) = choose|j: int, a: int|
            0 <= j < clusters.len() && 0 <= a < clusters[j].len() && #[trigger] clusters[j][a] == i;
        lemma_cluster_of_point(labels, k, j, a);
    }
    assert(ids =~= labels);
}

} // verus!
