use vstd::prelude::*;

verus! {

/// A cell of the grid; `y` grows downward.
#[derive(Clone, Copy, Debug, PartialEq, Eq, Structural)]
pub struct Point {
    pub x: i16,
    pub y: i16,
}

/// The colour of a block. It only matters when the field is drawn.
#[derive(Clone, Copy, Debug, PartialEq, Eq, Structural)]
pub enum Color {
    Cyan,
    Magenta,
    Red,
    Blue,
    Orange,
    Yellow,
    Green,
}

/// One occupied cell.
#[derive(Clone, Copy, Debug, PartialEq, Eq, Structural)]
pub struct Block {
    pub point: Point,
    pub color: Color,
}

/// A geometric map of the grid onto itself.
#[derive(Clone, Copy, Debug, PartialEq, Eq, Structural)]
pub enum Transform {
    Up,
    Down,
    Left,
    Right,
    /// A quarter turn around the given pivot.
    RotateAround(Point),
}

/// The image of `(x, y)` under a quarter turn around `(cx, cy)`.
pub open spec fn rotate_int(x: int, y: int, cx: int, cy: int) -> (int, int) {
    (cx + (cy - y), cy + (x - cx))
}

/// The image of `(x, y)` under `t`, over unbounded integers.
pub open spec fn transform_int(t: Transform, x: int, y: int) -> (int, int) {
    match t {
        Transform::Up => (x, y - 1),
        Transform::Down => (x, y + 1),
        Transform::Left => (x - 1, y),
        Transform::Right => (x + 1, y),
        Transform::RotateAround(c) => rotate_int(x, y, c.x as int, c.y as int),
    }
}

/// The image of a point under `t`.
pub open spec fn moved(t: Transform, p: Point) -> (int, int) {
    transform_int(t, p.x as int, p.y as int)
}

pub open spec fn fits_i16(v: int) -> bool {
    i16::MIN <= v <= i16::MAX
}

/// Whether the image of `p` under `t` is still a point of the `i16` grid.
pub open spec fn moved_in_range(t: Transform, p: Point) -> bool {
    fits_i16(moved(t, p).0) && fits_i16(moved(t, p).1)
}

/// A block carried along by `t`, keeping its colour.
pub open spec fn move_block(t: Transform, b: Block) -> Block {
    Block { point: Point { x: moved(t, b.point).0 as i16, y: moved(t, b.point).1 as i16 }, color: b.color }
}

/// A quarter turn four times over is the identity.
pub proof fn lemma_rotate_four_times(x: int, y: int, cx: int, cy: int)
    ensures
        ({
            let a = rotate_int(x, y, cx, cy);
            let b = rotate_int(a.0, a.1, cx, cy);
            let c = rotate_int(b.0, b.1, cx, cy);
            rotate_int(c.0, c.1, cx, cy) == (x, y)
        }),
{
}

impl Point {
    /// The point one row up.
    pub fn up(&self) -> (r: Point)
        requires
            self.y > i16::MIN,
        ensures
            (r.x as int, r.y as int) == moved(Transform::Up, *self),
    {
        Point { x: self.x, y: self.y - 1 }
    }

    /// The point one row down.
    pub fn down(&self) -> (r: Point)
        requires
            self.y < i16::MAX,
        ensures
            (r.x as int, r.y as int) == moved(Transform::Down, *self),
    {
        Point { x: self.x, y: self.y + 1 }
    }

    /// The point one column to the left.
    pub fn left(&self) -> (r: Point)
        requires
            self.x > i16::MIN,
        ensures
            (r.x as int, r.y as int) == moved(Transform::Left, *self),
    {
        Point { x: self.x - 1, y: self.y }
    }

    /// The point one column to the right.
    pub fn right(&self) -> (r: Point)
        requires
            self.x < i16::MAX,
        ensures
            (r.x as int, r.y as int) == moved(Transform::Right, *self),
    {
        Point { x: self.x + 1, y: self.y }
    }

    /// This point turned a quarter around `other`, or `None` where the image
    /// leaves the `i16` grid.
    pub fn rotate_around(&self, other: &Point) -> (r: Option<Point>)
        ensures
            r is Some <==> moved_in_range(Transform::RotateAround(*other), *self),
            r is Some ==> (r->0.x as int, r->0.y as int) == moved(Transform::RotateAround(*other), *self),
    {
        let x = other.x as i32 + (other.y as i32 - self.y as i32);
        let y = other.y as i32 + (self.x as i32 - other.x as i32);
        if i16::MIN as i32 <= x && x <= i16::MAX as i32 && i16::MIN as i32 <= y && y <= i16::MAX as i32 {
            Some(Point { x: x as i16, y: y as i16 })
        } else {
            None
        }
    }

    /// The image of this point under `t`, or `None` where it leaves the `i16` grid.
    pub fn apply(&self, t: Transform) -> (r: Option<Point>)
        ensures
            r is Some <==> moved_in_range(t, *self),
            r is Some ==> (r->0.x as int, r->0.y as int) == moved(t, *self),
    {
        match t {
            Transform::Up => if self.y > i16::MIN { Some(self.up()) } else { None },
            Transform::Down => if self.y < i16::MAX { Some(self.down()) } else { None },
            Transform::Left => if self.x > i16::MIN { Some(self.left()) } else { None },
            Transform::Right => if self.x < i16::MAX { Some(self.right()) } else { None },
            Transform::RotateAround(c) => self.rotate_around(&c),
        }
    }
}

impl Block {
    /// This block carried along by `t`, or `None` where it leaves the `i16` grid.
    pub fn apply(&self, t: Transform) -> (r: Option<Block>)
        ensures
            r is Some <==> moved_in_range(t, self.point),
            r is Some ==> r->0 == move_block(t, *self),
    {
        match self.point.apply(t) {
            Some(p) => Some(Block { point: p, color: self.color }),
            None => None,
        }
    }
}

} // verus!
