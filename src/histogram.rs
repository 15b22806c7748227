use vstd::prelude::*;
use crate::cell::Cell;
use crate::generation::{cell_map, lemma_map_len, lemma_map_push, lemma_map_value, unique_points, Generation};

verus! {

/// The bucket of an age: the age itself, capped at `max_age`.
pub open spec fn bucket(age: int, max_age: int) -> int {
    if age < max_age { age } else { max_age }
}

/// The live points of `m` whose age falls in bucket `k`.
pub open spec fn in_bucket(m: Map<(int, int), int>, max_age: int, k: int) -> Set<(int, int)> {
    m.dom().filter(|p: (int, int)| bucket(m[p], max_age) == k)
}

/// The sum of a sequence of counts.
pub open spec fn total(s: Seq<usize>) -> int
    decreases s.len(),
{
    if s.len() == 0 { 0 } else { total(s.drop_last()) + s.last() }
}

proof fn lemma_total_update(s: Seq<usize>, j: int, v: usize)
    requires
        0 <= j < s.len(),
    ensures
        total(s.update(j, v)) == total(s) - s[j] + v,
    decreases s.len(),
{
    let t = s.update(j, v);
    if j == s.len() - 1 {
        assert(t.drop_last() =~= s.drop_last());
    } else {
        lemma_total_update(s.drop_last(), j, v);
        assert(t.drop_last() =~= s.drop_last().update(j, v));
    }
}

proof fn lemma_total_zeros(s: Seq<usize>)
    requires
        forall|j: int| 0 <= j < s.len() ==> s[j] == 0,
    ensures
        total(s) == 0,
    decreases s.len(),
{
    if s.len() > 0 {
        lemma_total_zeros(s.drop_last());
    }
}

/// Counts the live cells by age, one bucket for each age from zero to
/// `max_age`; cells older than `max_age` count in the last bucket.
pub fn histo(gen: &Generation, max_age: u64) -> (r: Vec<usize>)
    requires
        gen.wf(),
        max_age < usize::MAX,
    ensures
        r@.len() == max_age + 1,
        forall|k: int| 0 <= k <= max_age ==> #[trigger] r@[k] == in_bucket(gen@.cells, max_age as int, k).len(),
        total(r@) == gen@.cells.dom().len(),
{
    let cells = gen.cells();
    let ghost s = cells@;
    let ghost m = gen@.cells;
    let ghost mx = max_age as int;
    let mut r: Vec<usize> = Vec::new();
    let mut k: u64 = 0;
    while k <= max_age
        invariant
            k <= max_age + 1,
            max_age < usize::MAX,
            r@.len() == k,
            forall|j: int| 0 <= j < k ==> r@[j] == 0,
        decreases max_age + 1 - k,
    {
        r.push(0);
        k += 1;
    }
    proof {
        lemma_total_zeros(r@);
        assert(s.take(0) =~= Seq::<Cell>::empty());
        assert(cell_map(s.take(0)).dom() =~= Set::empty());
        assert forall|j: int| 0 <= j <= max_age implies #[trigger] r@[j] == cell_map(s.take(0)).dom().filter(
            |p: (int, int)| bucket(m[p], mx) == j,
        ).len() by {
            assert(cell_map(s.take(0)).dom().filter(|p: (int, int)| bucket(m[p], mx) == j) =~= Set::empty());
        }
    }
    let mut i: usize = 0;
    while i < cells.len()
        invariant
            i <= s.len(),
            s == cells@,
            unique_points(s),
            cell_map(s) == m,
            max_age < usize::MAX,
            mx == max_age as int,
            r@.len() == max_age + 1,
            unique_points(s.take(i as int)),
            cell_map(s.take(i as int)).dom().finite(),
            cell_map(s.take(i as int)).dom().len() == i,
            forall|j: int|
                0 <= j <= max_age ==> #[trigger] r@[j] == cell_map(s.take(i as int)).dom().filter(
                    |p: (int, int)| bucket(m[p], mx) == j,
                ).len(),
            total(r@) == i,
        decreases s.len() - i,
    {
        let c = cells[i];
        let b: u64 = if c.age < max_age { c.age } else { max_age };
        let ghost part = cell_map(s.take(i as int)).dom();
        let ghost q = c.point@;
        proof {
            assert(s[i as int] == c);
            lemma_map_value(s, i as int);
            assert(s.take(i as int + 1) =~= s.take(i as int).push(c));
            assert(!part.contains(q)) by {
                if part.contains(q) {
                    let j = choose|j: int| 0 <= j < i && #[trigger] s.take(i as int)[j].point@ == q;
                    assert(s[j].point == s[i as int].point);
                }
            }
            lemma_map_push(s.take(i as int), c);
            part.lemma_len_filter(|p: (int, int)| bucket(m[p], mx) == b);
        }
        let old_count = r[b as usize];
        let ghost before = r@;
        r.set(b as usize, old_count + 1);
        proof {
            lemma_total_update(before, b as int, (old_count + 1) as usize);
            let next_part = cell_map(s.take(i as int + 1)).dom();
            assert(next_part =~= part.insert(q));
            assert forall|j: int| 0 <= j <= max_age implies #[trigger] r@[j] == next_part.filter(
                |p: (int, int)| bucket(m[p], mx) == j,
            ).len() by {
                let f = |p: (int, int)| bucket(m[p], mx) == j;
                part.lemma_len_filter(f);
                if j == b {
                    assert(next_part.filter(f) =~= part.filter(f).insert(q));
                } else {
                    assert(next_part.filter(f) =~= part.filter(f));
                }
            }
        }
        i += 1;
    }
    proof {
        assert(s.take(i as int) =~= s);
        lemma_map_len(s);
        assert forall|k: int| 0 <= k <= max_age implies #[trigger] r@[k] == in_bucket(m, mx, k).len() by {
            assert(m.dom().filter(|p: (int, int)| bucket(m[p], mx) == k) =~= in_bucket(m, mx, k));
        }
    }
    r
}

} // verus!
