use vstd::prelude::*;
use crate::generation::{born_set, dead_set, live_neighbors, step, GenView};
use crate::histogram::in_bucket;

verus! {

/// A live cell with two or three live neighbours is in the next generation
/// one generation older; with any other count it is not.
pub proof fn lemma_survival(v: GenView, p: (int, int))
    requires
        v.cells.dom().contains(p),
    ensures
        live_neighbors(v.cells, p) == 2 || live_neighbors(v.cells, p) == 3 ==> {
            &&& step(v).cells.dom().contains(p)
            &&& step(v).cells[p] == v.cells[p] + 1
        },
        !(live_neighbors(v.cells, p) == 2 || live_neighbors(v.cells, p) == 3)
            ==> !step(v).cells.dom().contains(p),
{
}

/// An empty point with exactly three live neighbours is in the next
/// generation at age zero; with any other count it stays empty.
pub proof fn lemma_birth(v: GenView, p: (int, int))
    requires
        !v.cells.dom().contains(p),
    ensures
        live_neighbors(v.cells, p) == 3 ==> {
            &&& step(v).cells.dom().contains(p)
            &&& step(v).cells[p] == 0
        },
        live_neighbors(v.cells, p) != 3 ==> !step(v).cells.dom().contains(p),
{
}

/// The births of a step are the points that are alive afterwards and were
/// not before; its deaths are the points that were alive and are no longer.
pub proof fn lemma_conservation(v: GenView)
    ensures
        step(v).births - v.births == step(v).cells.dom().difference(v.cells.dom()).len(),
        step(v).deaths - v.deaths == v.cells.dom().difference(step(v).cells.dom()).len(),
{
    assert(born_set(v.cells) =~= step(v).cells.dom().difference(v.cells.dom()));
    assert(dead_set(v.cells) =~= v.cells.dom().difference(step(v).cells.dom()));
}

/// A still life, where every live cell has two or three live neighbours and
/// no empty point has three, keeps its cells and its counters; only the
/// generation number moves on.
pub proof fn lemma_still_life(v: GenView)
    requires
        forall|p: (int, int)|
            #[trigger] v.cells.dom().contains(p) ==> live_neighbors(v.cells, p) == 2
                || live_neighbors(v.cells, p) == 3,
        forall|p: (int, int)| !v.cells.dom().contains(p) ==> #[trigger] live_neighbors(v.cells, p) != 3,
    ensures
        step(v).cells.dom() == v.cells.dom(),
        step(v).tick == v.tick + 1,
        step(v).births == v.births,
        step(v).deaths == v.deaths,
{
    assert(born_set(v.cells) =~= Set::empty());
    assert(dead_set(v.cells) =~= Set::empty());
    assert(step(v).cells.dom() =~= v.cells.dom());
}

/// A step from no live cells leaves no live cells and the counters as they
/// were, with the generation number one higher.
pub proof fn lemma_empty(v: GenView)
    requires
        v.cells.dom() == Set::<(int, int)>::empty(),
    ensures
        step(v).cells.dom() == Set::<(int, int)>::empty(),
        step(v).tick == v.tick + 1,
        step(v).births == v.births,
        step(v).deaths == v.deaths,
{
    assert(born_set(v.cells) =~= Set::empty());
    assert(dead_set(v.cells) =~= Set::empty());
    assert(step(v).cells.dom() =~= Set::empty());
}

/// A cell older than `max_age` counts in the bucket of `max_age` and in no
/// other.
pub proof fn lemma_histogram_cap(m: Map<(int, int), int>, max_age: int, p: (int, int), k: int)
    requires
        m.dom().contains(p),
        m[p] > max_age,
    ensures
        in_bucket(m, max_age, max_age).contains(p),
        k != max_age ==> !in_bucket(m, max_age, k).contains(p),
{
}

} // verus!
