use vstd::prelude::*;

use crate::color::{within, Color, Tolerance};
use crate::palette::{first_nearest, lemma_first_nearest_exists, nearest_in};

verus! {

/// Clustering state: the representatives, in order of founding, and how many
/// colours each one has absorbed.
pub struct ClusterModel {
    pub reps: Seq<Color>,
    pub counts: Seq<nat>,
}

/// Adds one colour: it joins the nearest representative (the first, on ties)
/// when that one is within tolerance, and otherwise founds a new cluster.
/// Representatives never move.
pub open spec fn cluster_step(m: ClusterModel, c: Color, tol: Tolerance) -> ClusterModel {
    if m.reps.len() > 0 && within(c, m.reps[first_nearest(m.reps, c)], tol) {
        let i = first_nearest(m.reps, c);
        ClusterModel { reps: m.reps, counts: m.counts.update(i, m.counts[i] + 1) }
    } else {
        ClusterModel { reps: m.reps.push(c), counts: m.counts.push(1) }
    }
}

/// The clusters that a single pass over `colors`, in order, builds.
pub open spec fn clusters(colors: Seq<Color>, tol: Tolerance) -> ClusterModel
    decreases colors.len(),
{
    if colors.len() == 0 {
        ClusterModel { reps: Seq::empty(), counts: Seq::empty() }
    } else {
        cluster_step(clusters(colors.drop_last(), tol), colors.last(), tol)
    }
}

/// `i` holds the largest count, and no earlier position holds as much.
pub open spec fn is_first_max(counts: Seq<nat>, i: int) -> bool {
    &&& 0 <= i < counts.len()
    &&& forall|j: int| 0 <= j < counts.len() ==> #[trigger] counts[j] <= counts[i]
    &&& forall|j: int| 0 <= j < i ==> #[trigger] counts[j] < counts[i]
}

pub open spec fn first_max(counts: Seq<nat>) -> int {
    choose|i: int| is_first_max(counts, i)
}

/// The representative of the most populous cluster (the earliest founded, on
/// ties) after one pass over `colors`.
pub open spec fn dominant(colors: Seq<Color>, tol: Tolerance) -> Color {
    let m = clusters(colors, tol);
    m.reps[first_max(m.counts)]
}

pub proof fn lemma_first_max_unique(counts: Seq<nat>, i: int, k: int)
    requires
        is_first_max(counts, i),
        is_first_max(counts, k),
    ensures
        i == k,
{
    if i < k {
        assert(counts[i] < counts[k]);
    } else if k < i {
        assert(counts[k] < counts[i]);
    }
}

/// The clusters are well formed, and there is one as soon as a colour was seen.
pub proof fn lemma_clusters_shape(colors: Seq<Color>, tol: Tolerance)
    ensures
        clusters(colors, tol).reps.len() == clusters(colors, tol).counts.len(),
        clusters(colors, tol).reps.len() <= colors.len(),
        colors.len() > 0 ==> clusters(colors, tol).reps.len() > 0,
    decreases colors.len(),
{
    if colors.len() > 0 {
        lemma_clusters_shape(colors.drop_last(), tol);
        let m = clusters(colors.drop_last(), tol);
        if m.reps.len() > 0 {
            lemma_first_nearest_exists(m.reps, colors.last());
        }
    }
}

fn first_max_index(counts: &Vec<usize>) -> (r: usize)
    requires
        counts@.len() > 0,
    ensures
        is_first_max(counts@.map_values(|x: usize| x as nat), r as int),
{
    let ghost cs = counts@.map_values(|x: usize| x as nat);
    let mut best: usize = 0;
    let mut i: usize = 1;
    while i < counts.len()
        invariant
            1 <= i <= counts@.len(),
            best < i,
            cs == counts@.map_values(|x: usize| x as nat),
            forall|j: int| 0 <= j < i ==> #[trigger] cs[j] <= cs[best as int],
            forall|j: int| 0 <= j < best ==> #[trigger] cs[j] < cs[best as int],
        decreases counts@.len() - i,
    {
        if counts[i] > counts[best] {
            best = i;
        }
        i = i + 1;
    }
    best
}

/// Runs the greedy clustering over `colors` in order and returns the
/// representative of the most populous cluster, or `None` for no colours.
pub fn dominant_color(colors: &Vec<Color>, tol: Tolerance) -> (r: Option<Color>)
    ensures
        colors@.len() == 0 ==> r is None,
        colors@.len() > 0 ==> r == Some(dominant(colors@, tol)),
{
    let mut reps: Vec<Color> = Vec::new();
    let mut counts: Vec<usize> = Vec::new();
    let mut i: usize = 0;
    proof {
        assert(colors@.take(0) =~= Seq::<Color>::empty());
        assert(counts@.map_values(|x: usize| x as nat) =~= Seq::<nat>::empty());
    }
    while i < colors.len()
        invariant
            i <= colors@.len(),
            reps@.len() == counts@.len(),
            clusters(colors@.take(i as int), tol) == (ClusterModel {
                reps: reps@,
                counts: counts@.map_values(|x: usize| x as nat),
            }),
            forall|k: int| 0 <= k < counts@.len() ==> #[trigger] counts@[k] <= i,
        decreases colors@.len() - i,
    {
        let c = colors[i];
        let ghost before = counts@;
        proof {
            assert(colors@.take(i + 1).drop_last() =~= colors@.take(i as int));
        }
        let mut joined = false;
        if reps.len() > 0 {
            let (j, d) = nearest_in(&reps, c);
            if d <= tol.max_diff {
                let n = counts[j];
                counts.set(j, n + 1);
                joined = true;
                proof {
                    assert(counts@.map_values(|x: usize| x as nat) =~= before.map_values(
                        |x: usize| x as nat,
                    ).update(j as int, before[j as int] as nat + 1));
                }
            }
        }
        if !joined {
            reps.push(c);
            counts.push(1);
            proof {
                assert(counts@.map_values(|x: usize| x as nat) =~= before.map_values(
                    |x: usize| x as nat,
                ).push(1));
            }
        }
        i = i + 1;
    }
    proof {
        assert(colors@.take(colors@.len() as int) =~= colors@);
        lemma_clusters_shape(colors@, tol);
    }
    if reps.len() == 0 {
        return None;
    }
    let top = first_max_index(&counts);
    proof {
        let cs = counts@.map_values(|x: usize| x as nat);
        lemma_first_max_unique(cs, top as int, first_max(cs));
    }
    Some(reps[top])
}

} // verus!
