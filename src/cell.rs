use vstd::prelude::*;

verus! {

/// A grid coordinate.
#[derive(PartialEq, Eq, Structural, Debug, Clone, Copy)]
pub struct Point {
    pub x: i32,
    pub y: i32,
}

impl View for Point {
    type V = (int, int);

    open spec fn view(&self) -> (int, int) {
        (self.x as int, self.y as int)
    }
}

impl Point {
    pub fn new(x: i32, y: i32) -> (r: Point)
        ensures
            r.x == x,
            r.y == y,
    {
        Point { x, y }
    }
}

/// A live cell: where it is, and for how many generations it has survived.
#[derive(Debug, Clone, Copy)]
pub struct Cell {
    pub point: Point,
    pub age: u64,
}

impl Cell {
    pub fn new(point: Point, age: u64) -> (r: Cell)
        ensures
            r.point == point,
            r.age == age,
    {
        Cell { point, age }
    }
}

} // verus!
