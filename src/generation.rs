use vstd::prelude::*;
use crate::cell::{Cell, Point};

verus! {

/// The mathematical state of one generation: the live cells keyed by
/// position, each with its age, and the counters.
pub struct GenView {
    pub cells: Map<(int, int), int>,
    pub tick: int,
    pub births: int,
    pub deaths: int,
}

/// One when `p` is alive in `m`, else zero.
pub open spec fn alive(m: Map<(int, int), int>, p: (int, int)) -> int {
    if m.dom().contains(p) { 1 } else { 0 }
}

/// The number of live points among the eight that surround `p`.
pub open spec fn live_neighbors(m: Map<(int, int), int>, p: (int, int)) -> int {
    alive(m, (p.0 - 1, p.1 - 1)) + alive(m, (p.0, p.1 - 1)) + alive(m, (p.0 + 1, p.1 - 1))
        + alive(m, (p.0 - 1, p.1)) + alive(m, (p.0 + 1, p.1))
        + alive(m, (p.0 - 1, p.1 + 1)) + alive(m, (p.0, p.1 + 1)) + alive(m, (p.0 + 1, p.1 + 1))
}

/// `q` is one of the eight points that surround `p`.
pub open spec fn adjacent(p: (int, int), q: (int, int)) -> bool {
    &&& q != p
    &&& p.0 - 1 <= q.0 <= p.0 + 1
    &&& p.1 - 1 <= q.1 <= p.1 + 1
}

/// A live point with two or three live neighbours stays alive.
pub open spec fn survives(m: Map<(int, int), int>, p: (int, int)) -> bool {
    m.dom().contains(p) && (live_neighbors(m, p) == 2 || live_neighbors(m, p) == 3)
}

/// An empty point with exactly three live neighbours comes alive.
pub open spec fn is_born(m: Map<(int, int), int>, p: (int, int)) -> bool {
    !m.dom().contains(p) && live_neighbors(m, p) == 3
}

/// The live cells one generation later: survivors one older, newborns at age zero.
pub open spec fn next_cells(m: Map<(int, int), int>) -> Map<(int, int), int> {
    Map::new(
        |p: (int, int)| survives(m, p) || is_born(m, p),
        |p: (int, int)| if m.dom().contains(p) { m[p] + 1 } else { 0 },
    )
}

pub open spec fn born_set(m: Map<(int, int), int>) -> Set<(int, int)> {
    Set::new(|p: (int, int)| is_born(m, p))
}

pub open spec fn dead_set(m: Map<(int, int), int>) -> Set<(int, int)> {
    Set::new(|p: (int, int)| m.dom().contains(p) && !survives(m, p))
}

/// One step of the automaton on the model, with cumulative counters.
pub open spec fn step(v: GenView) -> GenView {
    GenView {
        cells: next_cells(v.cells),
        tick: v.tick + 1,
        births: v.births + born_set(v.cells).len(),
        deaths: v.deaths + dead_set(v.cells).len(),
    }
}

/// The cells of a sequence keyed by position, each with its age.
pub open spec fn cell_map(s: Seq<Cell>) -> Map<(int, int), int> {
    Map::new(
        |p: (int, int)| exists|i: int| 0 <= i < s.len() && #[trigger] s[i].point@ == p,
        |p: (int, int)| s[choose|i: int| 0 <= i < s.len() && #[trigger] s[i].point@ == p].age as int,
    )
}

/// No two cells of `s` share a position.
pub open spec fn unique_points(s: Seq<Cell>) -> bool {
    forall|i: int, j: int|
        #![trigger s[i], s[j]]
        0 <= i < s.len() && 0 <= j < s.len() && i != j ==> s[i].point != s[j].point
}

pub(crate) proof fn lemma_map_value(s: Seq<Cell>, i: int)
    requires
        unique_points(s),
        0 <= i < s.len(),
    ensures
        cell_map(s).dom().contains(s[i].point@),
        cell_map(s)[s[i].point@] == s[i].age as int,
{
    let p = s[i].point@;
    assert(cell_map(s).dom().contains(p));
    let j = choose|j: int| 0 <= j < s.len() && #[trigger] s[j].point@ == p;
    assert(s[j].point == s[i].point);
}

pub(crate) proof fn lemma_map_push(s: Seq<Cell>, c: Cell)
    requires
        unique_points(s),
        !cell_map(s).dom().contains(c.point@),
    ensures
        unique_points(s.push(c)),
        cell_map(s.push(c)) == cell_map(s).insert(c.point@, c.age as int),
{
    let t = s.push(c);
    assert forall|i: int| 0 <= i < s.len() implies #[trigger] s[i].point != c.point by {
        assert(s[i].point@ == t[i].point@);
    }
    assert(unique_points(t));
    let a = cell_map(t);
    let b = cell_map(s).insert(c.point@, c.age as int);
    assert forall|p: (int, int)| #[trigger] a.dom().contains(p) <==> b.dom().contains(p) by {
        if a.dom().contains(p) {
            let i = choose|i: int| 0 <= i < t.len() && #[trigger] t[i].point@ == p;
            if i < s.len() {
                assert(s[i].point@ == p);
            }
        }
        if cell_map(s).dom().contains(p) {
            let i = choose|i: int| 0 <= i < s.len() && #[trigger] s[i].point@ == p;
            assert(t[i].point@ == p);
        }
        if p == c.point@ {
            assert(t[s.len() as int].point@ == p);
        }
    }
    assert forall|p: (int, int)| a.dom().contains(p) implies #[trigger] a[p] == b[p] by {
        let i = choose|i: int| 0 <= i < t.len() && #[trigger] t[i].point@ == p;
        lemma_map_value(t, i);
        if i < s.len() {
            lemma_map_value(s, i);
            assert(s[i] == t[i]);
        }
    }
    assert(a =~= b);
}

/// Where a cell at `(x, y)` stands in `cells`, if there is one.
fn position(cells: &Vec<Cell>, x: i32, y: i32) -> (r: Option<usize>)
    ensures
        match r {
            Some(i) => i < cells.len() && cells@[i as int].point@ == (x as int, y as int),
            None => !cell_map(cells@).dom().contains((x as int, y as int)),
        },
{
    let mut i: usize = 0;
    while i < cells.len()
        invariant
            i <= cells.len(),
            forall|j: int| 0 <= j < i ==> cells@[j].point@ != (x as int, y as int),
        decreases cells.len() - i,
    {
        if cells[i].point.x == x && cells[i].point.y == y {
            return Some(i);
        }
        i += 1;
    }
    None
}

/// Adds one to `count` when a cell lives at `p`.
pub fn check_neighbor(p: Point, cells: &Vec<Cell>, count: u32) -> (r: u32)
    requires
        count < u32::MAX,
    ensures
        r == count + alive(cell_map(cells@), p@),
{
    match position(cells, p.x, p.y) {
        Some(i) => {
            assert(cell_map(cells@).dom().contains(p@)) by {
                assert(cells@[i as int].point@ == p@);
            }
            count + 1
        },
        None => count,
    }
}

/// The number of live cells among the eight that surround `p`.
pub fn count_neighbors(p: Point, cells: &Vec<Cell>) -> (r: u32)
    requires
        i32::MIN < p.x < i32::MAX,
        i32::MIN < p.y < i32::MAX,
    ensures
        r == live_neighbors(cell_map(cells@), p@),
{
    let mut count: u32 = 0;
    count = check_neighbor(Point::new(p.x - 1, p.y - 1), cells, count);
    count = check_neighbor(Point::new(p.x, p.y - 1), cells, count);
    count = check_neighbor(Point::new(p.x + 1, p.y - 1), cells, count);
    count = check_neighbor(Point::new(p.x - 1, p.y), cells, count);
    count = check_neighbor(Point::new(p.x + 1, p.y), cells, count);
    count = check_neighbor(Point::new(p.x - 1, p.y + 1), cells, count);
    count = check_neighbor(Point::new(p.x, p.y + 1), cells, count);
    count = check_neighbor(Point::new(p.x + 1, p.y + 1), cells, count);
    count
}

/// The live cells of one generation, with its counters.
pub struct Generation {
    cells: Vec<Cell>,
    tick: u32,
    births: u64,
    deaths: u64,
}

impl View for Generation {
    type V = GenView;

    closed spec fn view(&self) -> GenView {
        GenView {
            cells: cell_map(self.cells@),
            tick: self.tick as int,
            births: self.births as int,
            deaths: self.deaths as int,
        }
    }
}

impl Generation {
    /// No two cells share a position.
    pub closed spec fn wf(&self) -> bool {
        unique_points(self.cells@)
    }

    /// The machine's integers can hold the next generation: every cell lies
    /// two or more points inside the range of `i32`, no age and not the
    /// generation number is at its maximum, and the counters have room for
    /// the most births and deaths that one step can bring.
    pub closed spec fn can_step(&self) -> bool {
        &&& self.tick < u32::MAX
        &&& self.births + 8 * self.cells.len() <= u64::MAX
        &&& self.deaths + self.cells.len() <= u64::MAX
        &&& forall|i: int|
            0 <= i < self.cells.len() ==> {
                let c = #[trigger] self.cells@[i];
                &&& i32::MIN + 2 <= c.point.x <= i32::MAX - 2
                &&& i32::MIN + 2 <= c.point.y <= i32::MAX - 2
                &&& c.age < u64::MAX
            }
    }
}

/// Appends `q` to `cand` unless a cell lives there or `cand` holds it already.
fn note_candidate(q: Point, cells: &Vec<Cell>, cand: &mut Vec<Point>)
    ensures
        final(cand)@ == if cell_map(cells@).dom().contains(q@) || old(cand)@.contains(q) {
            old(cand)@
        } else {
            old(cand)@.push(q)
        },
{
    if position(cells, q.x, q.y).is_some() {
        return;
    }
    let mut k: usize = 0;
    while k < cand.len()
        invariant
            k <= cand.len(),
            forall|j: int| 0 <= j < k ==> cand@[j] != q,
        decreases cand.len() - k,
    {
        if cand[k] == q {
            assert(cand@[k as int] == q);
            return;
        }
        k += 1;
    }
    cand.push(q);
}

/// The empty points around the live cells, each once.
spec fn candidates_ok(m: Map<(int, int), int>, cand: Seq<Point>) -> bool {
    &&& forall|a: int, b: int|
        #![trigger cand[a], cand[b]]
        0 <= a < cand.len() && 0 <= b < cand.len() && a != b ==> cand[a] != cand[b]
    &&& forall|a: int| 0 <= a < cand.len() ==> !m.dom().contains(#[trigger] cand[a]@)
}

/// Records the empty points among the eight that surround `p`.
fn add_candidates(p: Point, cells: &Vec<Cell>, cand: &mut Vec<Point>)
    requires
        i32::MIN < p.x < i32::MAX,
        i32::MIN < p.y < i32::MAX,
        candidates_ok(cell_map(cells@), old(cand)@),
    ensures
        candidates_ok(cell_map(cells@), final(cand)@),
        old(cand)@.len() <= final(cand)@.len() <= old(cand)@.len() + 8,
        forall|j: int| 0 <= j < old(cand)@.len() ==> final(cand)@[j] == old(cand)@[j],
        forall|j: int|
            old(cand)@.len() <= j < final(cand)@.len() ==> adjacent(p@, #[trigger] final(cand)@[j]@),
        forall|q: (int, int)|
            adjacent(p@, q) && !cell_map(cells@).dom().contains(q) ==> exists|j: int|
                0 <= j < final(cand)@.len() && #[trigger] final(cand)@[j]@ == q,
{
    let ghost c0 = cand@;
    let ghost m = cell_map(cells@);
    let ds: [(i32, i32); 8] = [(-1, -1), (0, -1), (1, -1), (-1, 0), (1, 0), (-1, 1), (0, 1), (1, 1)];
    let mut k: usize = 0;
    while k < 8
        invariant
            0 <= k <= 8,
            ds@ == seq![(-1i32, -1i32), (0i32, -1i32), (1i32, -1i32), (-1i32, 0i32), (1i32, 0i32), (-1i32, 1i32), (0i32, 1i32), (1i32, 1i32)],
            i32::MIN < p.x < i32::MAX,
            i32::MIN < p.y < i32::MAX,
            m == cell_map(cells@),
            candidates_ok(m, cand@),
            c0.len() <= cand@.len() <= c0.len() + k,
            forall|j: int| 0 <= j < c0.len() ==> cand@[j] == c0[j],
            forall|j: int| c0.len() <= j < cand@.len() ==> adjacent(p@, #[trigger] cand@[j]@),
            forall|kk: int|
                0 <= kk < k ==> {
                    let q = (p.x + (#[trigger] ds@[kk]).0, p.y + ds@[kk].1);
                    !m.dom().contains(q) ==> exists|j: int|
                        0 <= j < cand@.len() && #[trigger] cand@[j]@ == q
                },
        decreases 8 - k,
    {
        let (dx, dy) = ds[k];
        let q = Point::new(p.x + dx, p.y + dy);
        let ghost before = cand@;
        note_candidate(q, cells, cand);
        proof {
            if !m.dom().contains(q@) {
                if before.contains(q) {
                    let j = choose|j: int| 0 <= j < before.len() && before[j] == q;
                    assert(cand@[j]@ == q@);
                } else {
                    assert(cand@[before.len() as int]@ == q@);
                }
            }
            assert forall|kk: int|
                0 <= kk < k + 1 implies {
                    let q2 = (p.x + (#[trigger] ds@[kk]).0, p.y + ds@[kk].1);
                    !m.dom().contains(q2) ==> exists|j: int|
                        0 <= j < cand@.len() && #[trigger] cand@[j]@ == q2
                } by {
                let q2 = (p.x + ds@[kk].0, p.y + ds@[kk].1);
                if kk < k && !m.dom().contains(q2) {
                    let j = choose|j: int| 0 <= j < before.len() && #[trigger] before[j]@ == q2;
                    assert(cand@[j]@ == q2);
                }
            }
        }
        k += 1;
    }
    assert forall|q: (int, int)|
        adjacent(p@, q) && !m.dom().contains(q) implies exists|j: int|
            0 <= j < cand@.len() && #[trigger] cand@[j]@ == q by {
        let kk: int = if q.1 == p.y - 1 {
            q.0 - p.x + 1
        } else if q.1 == p.y {
            if q.0 == p.x - 1 { 3 } else { 4 }
        } else {
            q.0 - p.x + 6
        };
        assert(q == (p.x + ds@[kk].0, p.y + ds@[kk].1));
    }
}

proof fn lemma_push_fresh<A>(s: Seq<A>, x: A)
    requires
        s.no_duplicates(),
        !s.contains(x),
    ensures
        s.push(x).no_duplicates(),
        forall|y: A| #[trigger] s.push(x).contains(y) <==> (s.contains(y) || y == x),
{
    let t = s.push(x);
    assert forall|y: A| #[trigger] t.contains(y) <==> (s.contains(y) || y == x) by {
        if t.contains(y) {
            let a = choose|a: int| 0 <= a < t.len() && t[a] == y;
            if a < s.len() {
                assert(s[a] == y);
            }
        }
        if s.contains(y) {
            let a = choose|a: int| 0 <= a < s.len() && s[a] == y;
            assert(t[a] == y);
        }
        if y == x {
            assert(t[s.len() as int] == y);
        }
    }
    assert forall|a: int, b: int| 0 <= a < t.len() && 0 <= b < t.len() && a != b implies t[a] != t[b] by {
        if a < s.len() && b < s.len() {
            assert(t[a] == s[a] && t[b] == s[b]);
        } else if a < s.len() {
            assert(s.contains(t[a]));
        } else if b < s.len() {
            assert(s.contains(t[b]));
        }
    }
}

/// A live point next to `q`, when `q` has a live neighbour.
proof fn lemma_has_live_neighbor(m: Map<(int, int), int>, q: (int, int)) -> (nb: (int, int))
    requires
        live_neighbors(m, q) > 0,
    ensures
        m.dom().contains(nb),
        adjacent(nb, q),
{
    let c = [(q.0 - 1, q.1 - 1), (q.0, q.1 - 1), (q.0 + 1, q.1 - 1), (q.0 - 1, q.1), (q.0 + 1, q.1),
        (q.0 - 1, q.1 + 1), (q.0, q.1 + 1), (q.0 + 1, q.1 + 1)];
    if m.dom().contains(c[0]) { c[0] }
    else if m.dom().contains(c[1]) { c[1] }
    else if m.dom().contains(c[2]) { c[2] }
    else if m.dom().contains(c[3]) { c[3] }
    else if m.dom().contains(c[4]) { c[4] }
    else if m.dom().contains(c[5]) { c[5] }
    else if m.dom().contains(c[6]) { c[6] }
    else { c[7] }
}

/// The next generation: a live cell with two or three live neighbours
/// survives one generation older, an empty point with exactly three comes
/// alive at age zero, and every other cell dies. All counts read the current
/// generation only.
pub fn life(gen: &Generation) -> (r: Generation)
    requires
        gen.wf(),
        gen.can_step(),
    ensures
        r.wf(),
        r@ == step(gen@),
{
    let ghost s = gen.cells@;
    let ghost m = cell_map(s);
    let mut next: Vec<Cell> = Vec::new();
    let mut cand: Vec<Point> = Vec::new();
    let mut deaths = gen.deaths;
    let ghost mut dead: Seq<(int, int)> = Seq::empty();
    let mut i: usize = 0;
    while i < gen.cells.len()
        invariant
            i <= s.len(),
            s == gen.cells@,
            m == cell_map(s),
            gen.wf(),
            gen.can_step(),
            unique_points(next@),
            forall|p: (int, int)|
                #[trigger] cell_map(next@).dom().contains(p) <==> (survives(m, p) && exists|j: int|
                    0 <= j < i && #[trigger] s[j].point@ == p),
            forall|p: (int, int)|
                cell_map(next@).dom().contains(p) ==> #[trigger] cell_map(next@)[p] == m[p] + 1,
            dead.no_duplicates(),
            dead.len() <= i,
            deaths == gen.deaths + dead.len(),
            forall|p: (int, int)|
                #[trigger] dead.contains(p) <==> (m.dom().contains(p) && !survives(m, p) && exists|j: int|
                    0 <= j < i && #[trigger] s[j].point@ == p),
            candidates_ok(m, cand@),
            cand@.len() <= 8 * i,
            forall|a: int|
                0 <= a < cand@.len() ==> {
                    let q = #[trigger] cand@[a];
                    &&& i32::MIN < q.x < i32::MAX
                    &&& i32::MIN < q.y < i32::MAX
                },
            forall|j: int, q: (int, int)|
                0 <= j < i && #[trigger] adjacent(s[j].point@, q) && !m.dom().contains(q)
                    ==> exists|k: int| 0 <= k < cand@.len() && #[trigger] cand@[k]@ == q,
        decreases s.len() - i,
    {
        let c = gen.cells[i];
        let ghost next0 = next@;
        let ghost cand0 = cand@;
        proof {
            lemma_map_value(s, i as int);
            assert(s[i as int].point@ == c.point@);
            assert forall|j: int| 0 <= j < i implies #[trigger] s[j].point@ != c.point@ by {
                assert(s[j] != s[i as int] ==> s[j].point != s[i as int].point);
            }
        }
        let n = count_neighbors(c.point, &gen.cells);
        add_candidates(c.point, &gen.cells, &mut cand);
        if n == 2 || n == 3 {
            let d = Cell::new(c.point, c.age + 1);
            proof {
                lemma_map_push(next@, d);
            }
            next.push(d);
        } else {
            deaths = deaths + 1;
            proof {
                assert(!dead.contains(c.point@));
                lemma_push_fresh(dead, c.point@);
                dead = dead.push(c.point@);
            }
        }
        proof {
            assert forall|j: int, q: (int, int)|
                0 <= j < i + 1 && #[trigger] adjacent(s[j].point@, q) && !m.dom().contains(q)
                    implies exists|k: int| 0 <= k < cand@.len() && #[trigger] cand@[k]@ == q by {
                if j < i {
                    let k = choose|k: int| 0 <= k < cand0.len() && #[trigger] cand0[k]@ == q;
                    assert(cand@[k]@ == q);
                }
            }
            assert forall|a: int| 0 <= a < cand@.len() implies {
                let q = #[trigger] cand@[a];
                &&& i32::MIN < q.x < i32::MAX
                &&& i32::MIN < q.y < i32::MAX
            } by {
                if a < cand0.len() {
                    assert(cand@[a] == cand0[a]);
                } else {
                    assert(adjacent(c.point@, cand@[a]@));
                }
            }
        }
        i += 1;
    }
    proof {
        assert(dead.to_set() =~= dead_set(m));
        dead.unique_seq_to_set();
        assert forall|q: (int, int)| is_born(m, q) implies exists|k: int|
            0 <= k < cand@.len() && #[trigger] cand@[k]@ == q by {
            let nb = lemma_has_live_neighbor(m, q);
            let j = choose|j: int| 0 <= j < s.len() && #[trigger] s[j].point@ == nb;
            assert(adjacent(s[j].point@, q));
        }
    }
    let mut births = gen.births;
    let ghost mut born: Seq<(int, int)> = Seq::empty();
    let mut k: usize = 0;
    while k < cand.len()
        invariant
            k <= cand.len(),
            cand@.len() <= 8 * s.len(),
            s == gen.cells@,
            m == cell_map(s),
            gen.wf(),
            gen.can_step(),
            deaths == gen.deaths + dead_set(m).len(),
            candidates_ok(m, cand@),
            forall|a: int|
                0 <= a < cand@.len() ==> {
                    let q = #[trigger] cand@[a];
                    &&& i32::MIN < q.x < i32::MAX
                    &&& i32::MIN < q.y < i32::MAX
                },
            forall|q: (int, int)| is_born(m, q) ==> exists|kk: int|
                0 <= kk < cand@.len() && #[trigger] cand@[kk]@ == q,
            unique_points(next@),
            forall|p: (int, int)|
                #[trigger] cell_map(next@).dom().contains(p) <==> (survives(m, p) || (is_born(m, p)
                    && exists|kk: int| 0 <= kk < k && #[trigger] cand@[kk]@ == p)),
            forall|p: (int, int)|
                cell_map(next@).dom().contains(p) ==> #[trigger] cell_map(next@)[p] == if m.dom().contains(p) {
                    m[p] + 1
                } else {
                    0
                },
            born.no_duplicates(),
            born.len() <= k,
            births == gen.births + born.len(),
            forall|p: (int, int)|
                #[trigger] born.contains(p) <==> (is_born(m, p) && exists|kk: int|
                    0 <= kk < k && #[trigger] cand@[kk]@ == p),
        decreases cand.len() - k,
    {
        let q = cand[k];
        proof {
            assert(cand@[k as int] == q);
            assert(!m.dom().contains(q@));
            assert forall|kk: int| 0 <= kk < k implies #[trigger] cand@[kk]@ != q@ by {
                assert(cand@[kk] != cand@[k as int]);
            }
        }
        let n = count_neighbors(q, &gen.cells);
        if n == 3 {
            let d = Cell::new(q, 0);
            proof {
                lemma_map_push(next@, d);
            }
            next.push(d);
            births = births + 1;
            proof {
                assert(!born.contains(q@));
                lemma_push_fresh(born, q@);
                born = born.push(q@);
            }
        }
        k += 1;
    }
    proof {
        assert(born.to_set() =~= born_set(m));
        born.unique_seq_to_set();
        assert(cell_map(next@) =~= next_cells(m));
    }
    Generation { cells: next, tick: gen.tick + 1, births, deaths }
}

/// A seed row marks a live cell wherever it holds a character other than a space.
pub open spec fn seeded(rows: Seq<Seq<char>>, p: (int, int)) -> bool {
    0 <= p.1 < rows.len() && 0 <= p.0 < rows[p.1].len() && rows[p.1][p.0] != ' '
}

/// The cells of a seed: one of age zero at each marked position.
pub open spec fn seed_cells(rows: Seq<Seq<char>>) -> Map<(int, int), int> {
    Map::new(|p: (int, int)| seeded(rows, p), |p: (int, int)| 0)
}

spec fn seeded_before(rows: Seq<Seq<char>>, y: int, x: int) -> Map<(int, int), int> {
    Map::new(
        |p: (int, int)| seeded(rows, p) && (p.1 < y || (p.1 == y && p.0 < x)),
        |p: (int, int)| 0,
    )
}

/// The first generation, from rows of text: row `y`, column `x` seeds a
/// cell at `(x, y)` unless it holds a space.
pub fn init(rows: &Vec<Vec<char>>) -> (r: Generation)
    requires
        rows.len() <= i32::MAX,
        forall|y: int| 0 <= y < rows.len() ==> #[trigger] rows@[y].len() <= i32::MAX,
    ensures
        r.wf(),
        r@.cells == seed_cells(rows@.map_values(|row: Vec<char>| row@)),
        r@.tick == 0,
        r@.births == 0,
        r@.deaths == 0,
{
    let ghost text = rows@.map_values(|row: Vec<char>| row@);
    let mut cells: Vec<Cell> = Vec::new();
    let mut y: usize = 0;
    while y < rows.len()
        invariant
            y <= rows.len() <= i32::MAX,
            forall|y: int| 0 <= y < rows.len() ==> #[trigger] rows@[y].len() <= i32::MAX,
            text == rows@.map_values(|row: Vec<char>| row@),
            text.len() == rows.len(),
            unique_points(cells@),
            cell_map(cells@) == seeded_before(text, y as int, 0),
            forall|i: int| 0 <= i < cells.len() ==> (#[trigger] cells@[i]).age == 0,
        decreases rows.len() - y,
    {
        let row = &rows[y];
        let mut x: usize = 0;
        while x < row.len()
            invariant
                y < rows.len() <= i32::MAX,
                x <= row.len() <= i32::MAX,
                text.len() == rows.len(),
                row@ == text[y as int],
                unique_points(cells@),
                cell_map(cells@) == seeded_before(text, y as int, x as int),
                forall|i: int| 0 <= i < cells.len() ==> (#[trigger] cells@[i]).age == 0,
            decreases row.len() - x,
        {
            let ghost before = cells@;
            if row[x] != ' ' {
                let c = Cell::new(Point::new(x as i32, y as i32), 0);
                proof {
                    assert(c.point@ == (x as int, y as int));
                    assert(text[y as int][x as int] == row@[x as int]);
                    assert(seeded(text, c.point@));
                    lemma_map_push(cells@, c);
                    assert(seeded_before(text, y as int, x as int).insert(c.point@, 0)
                        =~= seeded_before(text, y as int, x as int + 1));
                }
                cells.push(c);
            } else {
                assert(seeded_before(text, y as int, x as int) =~= seeded_before(text, y as int, x as int + 1));
            }
            x += 1;
        }
        assert(seeded_before(text, y as int, x as int) =~= seeded_before(text, y as int + 1, 0)) by {
            assert forall|p: (int, int)| seeded(text, p) && p.1 == y implies p.0 < x by {}
        }
        y += 1;
    }
    assert(seeded_before(text, y as int, 0) =~= seed_cells(text));
    Generation { cells, tick: 0, births: 0, deaths: 0 }
}

impl Generation {
    /// The generation number, zero for the seed.
    pub fn tick(&self) -> (r: u32)
        ensures
            r == self@.tick,
    {
        self.tick
    }

    /// Cells born since the seed.
    pub fn births(&self) -> (r: u64)
        ensures
            r == self@.births,
    {
        self.births
    }

    /// Cells that died since the seed.
    pub fn deaths(&self) -> (r: u64)
        ensures
            r == self@.deaths,
    {
        self.deaths
    }

    /// The live cells, in no particular order.
    pub fn cells(&self) -> (r: &Vec<Cell>)
        ensures
            cell_map(r@) == self@.cells,
            self.wf() ==> unique_points(r@),
    {
        &self.cells
    }

    /// The number of live cells.
    pub fn len(&self) -> (r: usize)
        requires
            self.wf(),
        ensures
            r == self@.cells.dom().len(),
    {
        proof {
            lemma_map_len(self.cells@);
        }
        self.cells.len()
    }

    /// The age of the cell at `(x, y)`, or `None` where no cell lives.
    pub fn age_at(&self, x: i32, y: i32) -> (r: Option<u64>)
        requires
            self.wf(),
        ensures
            match r {
                Some(a) => self@.cells.dom().contains((x as int, y as int)) && self@.cells[(x as int, y as int)] == a,
                None => !self@.cells.dom().contains((x as int, y as int)),
            },
    {
        match position(&self.cells, x, y) {
            Some(i) => {
                proof {
                    lemma_map_value(self.cells@, i as int);
                }
                Some(self.cells[i].age)
            },
            None => None,
        }
    }

    /// Whether the machine's integers can hold the next generation.
    pub fn can_advance(&self) -> (r: bool)
        ensures
            r == self.can_step(),
    {
        if self.tick == u32::MAX {
            return false;
        }
        let n = self.cells.len() as u128;
        if self.births as u128 + 8 * n > u64::MAX as u128 || self.deaths as u128 + n > u64::MAX as u128 {
            return false;
        }
        let mut i: usize = 0;
        while i < self.cells.len()
            invariant
                i <= self.cells.len(),
                forall|j: int|
                    0 <= j < i ==> {
                        let c = #[trigger] self.cells@[j];
                        &&& i32::MIN + 2 <= c.point.x <= i32::MAX - 2
                        &&& i32::MIN + 2 <= c.point.y <= i32::MAX - 2
                        &&& c.age < u64::MAX
                    },
            decreases self.cells.len() - i,
        {
            let c = self.cells[i];
            if c.point.x < i32::MIN + 2 || c.point.x > i32::MAX - 2 || c.point.y < i32::MIN + 2
                || c.point.y > i32::MAX - 2 || c.age == u64::MAX {
                assert(!self.can_step()) by {
                    assert(self.cells@[i as int] == c);
                }
                return false;
            }
            i += 1;
        }
        true
    }
}

/// The positions of unique cells are as many as the cells.
pub(crate) proof fn lemma_map_len(s: Seq<Cell>)
    requires
        unique_points(s),
    ensures
        cell_map(s).dom().len() == s.len(),
        cell_map(s).dom().finite(),
    decreases s.len(),
{
    if s.len() == 0 {
        assert(cell_map(s).dom() =~= Set::empty());
    } else {
        let t = s.drop_last();
        assert(unique_points(t)) by {
            assert forall|i: int, j: int| 0 <= i < t.len() && 0 <= j < t.len() && i != j implies t[i].point != t[j].point by {
                assert(t[i] == s[i] && t[j] == s[j]);
            }
        }
        lemma_map_len(t);
        let c = s.last();
        assert(!cell_map(t).dom().contains(c.point@)) by {
            if cell_map(t).dom().contains(c.point@) {
                let i = choose|i: int| 0 <= i < t.len() && #[trigger] t[i].point@ == c.point@;
                assert(s[i].point == s[s.len() - 1].point);
            }
        }
        lemma_map_push(t, c);
        assert(t.push(c) == s);
    }
}

} // verus!
