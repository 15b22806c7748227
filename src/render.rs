use vstd::prelude::*;
use crate::cell::{Cell, Point};
use crate::generation::{cell_map, lemma_map_value, unique_points, Generation};

verus! {

/// The longest bar of the histogram.
pub const BAR_WIDTH: usize = 25;

/// How many rows above the bottom edge the histogram starts.
pub const HISTOGRAM_LIFT: u16 = 13;

/// A character to draw at a screen position.
#[derive(PartialEq, Eq, Structural, Debug, Clone, Copy)]
pub struct Glyph {
    pub x: u16,
    pub y: u16,
    pub ch: char,
}

/// One row of the histogram: where it stands, the bucket's age and count,
/// and the length of its bar.
#[derive(PartialEq, Eq, Structural, Debug, Clone, Copy)]
pub struct HistoRow {
    pub y: u16,
    pub age: u64,
    pub count: usize,
    pub bar: usize,
}

/// The digit of an age below ten, else `+`.
pub open spec fn age_char(age: int) -> char {
    if 0 <= age < 10 { ((age + 48) as u8) as char } else { '+' }
}

/// A cell at `p` appears at `p + off` when that lies in a `w` by `h` screen.
pub open spec fn on_screen(p: (int, int), off: (int, int), w: int, h: int) -> bool {
    0 <= p.0 + off.0 < w && 0 <= p.1 + off.1 < h
}

/// The glyph `g` shows the live cell of `m` that lies at its screen
/// position less `off`.
pub open spec fn shows(m: Map<(int, int), int>, off: (int, int), w: int, h: int, g: Glyph) -> bool {
    let p = (g.x - off.0, g.y - off.1);
    &&& m.dom().contains(p)
    &&& on_screen(p, off, w, h)
    &&& g.ch == age_char(m[p])
}

fn glyph_char(age: u64) -> (r: char)
    ensures
        r == age_char(age as int),
{
    if age < 10 {
        ((age as u8) + 48u8) as char
    } else {
        '+'
    }
}

/// What the loop of `render` has built once it has seen every cell.
spec fn drawn(s: Seq<Cell>, r: Seq<Glyph>, src: Seq<int>, n: int, off: (int, int), w: int, h: int) -> bool {
    &&& src.len() == r.len()
    &&& forall|g: int|
        0 <= g < r.len() ==> {
            let j = #[trigger] src[g];
            &&& 0 <= j < n
            &&& on_screen(s[j].point@, off, w, h)
            &&& r[g].x == s[j].point@.0 + off.0
            &&& r[g].y == s[j].point@.1 + off.1
            &&& r[g].ch == age_char(s[j].age as int)
        }
    &&& forall|g1: int, g2: int|
        0 <= g1 < r.len() && 0 <= g2 < r.len() && g1 != g2 ==> src[g1] != src[g2]
    &&& forall|j: int|
        0 <= j < n && on_screen(#[trigger] s[j].point@, off, w, h) ==> exists|g: int|
            0 <= g < r.len() && #[trigger] src[g] == j
}

proof fn lemma_drawn(s: Seq<Cell>, r: Seq<Glyph>, src: Seq<int>, off: (int, int), w: int, h: int)
    requires
        unique_points(s),
        drawn(s, r, src, s.len() as int, off, w, h),
    ensures
        forall|i: int| 0 <= i < r.len() ==> shows(cell_map(s), off, w, h, #[trigger] r[i]),
        forall|p: (int, int)|
            #[trigger] cell_map(s).dom().contains(p) && on_screen(p, off, w, h) ==> exists|i: int|
                0 <= i < r.len() && r[i].x == p.0 + off.0 && #[trigger] r[i].y == p.1 + off.1,
        forall|i: int, j: int|
            0 <= i < r.len() && 0 <= j < r.len() && i != j ==> (r[i].x != r[j].x || r[i].y != r[j].y),
{
    let m = cell_map(s);
    assert forall|a: int| 0 <= a < r.len() implies shows(m, off, w, h, #[trigger] r[a]) by {
        lemma_map_value(s, src[a]);
        assert((r[a].x - off.0, r[a].y - off.1) == s[src[a]].point@);
    }
    assert forall|p: (int, int)|
        #[trigger] m.dom().contains(p) && on_screen(p, off, w, h) implies exists|a: int|
            0 <= a < r.len() && r[a].x == p.0 + off.0 && #[trigger] r[a].y == p.1 + off.1 by {
        let j = choose|j: int| 0 <= j < s.len() && #[trigger] s[j].point@ == p;
        let a = choose|a: int| 0 <= a < r.len() && #[trigger] src[a] == j;
        assert(r[a].y == p.1 + off.1);
    }
    assert forall|a: int, b: int|
        0 <= a < r.len() && 0 <= b < r.len() && a != b implies (r[a].x != r[b].x || r[a].y != r[b].y) by {
        let ja = src[a];
        let jb = src[b];
        assert(s[ja].point != s[jb].point);
    }
}

/// The glyphs of the live cells that the screen shows, with the view moved
/// by `offset`: the cell at `p` is drawn at `p + offset` with its age's
/// character, once, and no other glyph is drawn.
pub fn render(gen: &Generation, offset: Point, width: u16, height: u16) -> (r: Vec<Glyph>)
    requires
        gen.wf(),
    ensures
        forall|i: int|
            0 <= i < r@.len() ==> shows(gen@.cells, offset@, width as int, height as int, #[trigger] r@[i]),
        forall|p: (int, int)|
            #[trigger] gen@.cells.dom().contains(p) && on_screen(p, offset@, width as int, height as int)
                ==> exists|i: int|
                0 <= i < r@.len() && r@[i].x == p.0 + offset.x && #[trigger] r@[i].y == p.1 + offset.y,
        forall|i: int, j: int|
            0 <= i < r@.len() && 0 <= j < r@.len() && i != j ==> (r@[i].x != r@[j].x || r@[i].y != r@[j].y),
{
    let cells = gen.cells();
    let ghost s = cells@;
    let ghost off = offset@;
    let ghost w = width as int;
    let ghost h = height as int;
    let mut r: Vec<Glyph> = Vec::new();
    let ghost mut src: Seq<int> = Seq::empty();
    let mut i: usize = 0;
    while i < cells.len()
        invariant
            i <= s.len(),
            s == cells@,
            unique_points(s),
            cell_map(s) == gen@.cells,
            off == offset@,
            w == width as int,
            h == height as int,
            drawn(s, r@, src, i as int, off, w, h),
        decreases s.len() - i,
    {
        let c = cells[i];
        let ghost src0 = src;
        let ghost r0 = r@;
        let sx = c.point.x as i64 + offset.x as i64;
        let sy = c.point.y as i64 + offset.y as i64;
        if 0 <= sx && sx < width as i64 && 0 <= sy && sy < height as i64 {
            let ch = glyph_char(c.age);
            r.push(Glyph { x: sx as u16, y: sy as u16, ch });
            proof {
                src = src.push(i as int);
            }
        }
        proof {
            assert(s[i as int] == c);
            assert forall|g: int| 0 <= g < r0.len() implies r@[g] == r0[g] && src[g] == src0[g] by {}
            assert forall|j: int|
                0 <= j < i + 1 && on_screen(#[trigger] s[j].point@, off, w, h) implies exists|g: int|
                    0 <= g < r@.len() && #[trigger] src[g] == j by {
                if j < i {
                    let g = choose|g: int| 0 <= g < src0.len() && #[trigger] src0[g] == j;
                    assert(src[g] == j);
                } else {
                    assert(src[src.len() - 1] == j);
                }
            }
        }
        i += 1;
    }
    proof {
        lemma_drawn(s, r@, src, off, w, h);
    }
    r
}

/// The largest of the counts, zero for none.
pub open spec fn max_count(b: Seq<usize>) -> int
    decreases b.len(),
{
    if b.len() == 0 {
        0
    } else {
        let m = max_count(b.drop_last());
        if b.last() > m { b.last() as int } else { m }
    }
}

/// The length of the bar of `count`: `round(count * min(1, BAR_WIDTH / top))`,
/// with halves rounded up.
pub open spec fn bar_len(count: int, top: int) -> int {
    if top <= BAR_WIDTH { count } else { (count * 2 * BAR_WIDTH + top) / (2 * top) }
}

/// The row of the histogram for the bucket of age `a`.
pub open spec fn row_of(b: Seq<usize>, height: int, a: int) -> HistoRow {
    let top = if max_count(b) < 1 { 1 } else { max_count(b) };
    HistoRow {
        y: (if height - HISTOGRAM_LIFT + a > 0 { height - HISTOGRAM_LIFT + a } else { 0 }) as u16,
        age: a as u64,
        count: b[a],
        bar: bar_len(b[a] as int, top) as usize,
    }
}

/// The rows of the histogram that a screen `height` rows high shows, one for
/// each bucket in order of age, near its bottom edge.
pub fn histogram_rows(buckets: &Vec<usize>, height: u16) -> (r: Vec<HistoRow>)
    ensures
        r@.len() == if height == 0 {
            0
        } else if buckets@.len() < HISTOGRAM_LIFT {
            buckets@.len() as int
        } else {
            HISTOGRAM_LIFT as int
        },
        forall|a: int| 0 <= a < r@.len() ==> #[trigger] r@[a] == row_of(buckets@, height as int, a),
{
    let mut top: usize = 0;
    let mut i: usize = 0;
    while i < buckets.len()
        invariant
            i <= buckets.len(),
            top == max_count(buckets@.take(i as int)),
        decreases buckets.len() - i,
    {
        assert(buckets@.take(i as int + 1).drop_last() =~= buckets@.take(i as int));
        if buckets[i] > top {
            top = buckets[i];
        }
        i += 1;
    }
    assert(buckets@.take(i as int) =~= buckets@);
    if top < 1 {
        top = 1;
    }
    let n: usize = if height == 0 {
        0
    } else if buckets.len() < HISTOGRAM_LIFT as usize {
        buckets.len()
    } else {
        HISTOGRAM_LIFT as usize
    };
    let mut r: Vec<HistoRow> = Vec::new();
    let mut a: usize = 0;
    while a < n
        invariant
            a <= n <= buckets.len(),
            n <= HISTOGRAM_LIFT,
            height > 0 || n == 0,
            top as int == if max_count(buckets@) < 1 { 1 } else { max_count(buckets@) },
            r@.len() == a,
            forall|k: int| 0 <= k < a ==> #[trigger] r@[k] == row_of(buckets@, height as int, k),
        decreases n - a,
    {
        let count = buckets[a];
        let bar: usize = if top <= BAR_WIDTH {
            count
        } else {
            ((count as u128 * 2 * BAR_WIDTH as u128 + top as u128) / (2 * top as u128)) as usize
        };
        let y: u16 = if height as usize + a > HISTOGRAM_LIFT as usize {
            (height as usize + a - HISTOGRAM_LIFT as usize) as u16
        } else {
            0
        };
        r.push(HistoRow { y, age: a as u64, count, bar });
        a += 1;
    }
    r
}

} // verus!
