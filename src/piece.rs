use vstd::prelude::*;
use crate::geometry::{Block, Color, Point, Transform, move_block, moved_in_range};

verus! {

/// The seven shapes of the catalog.
#[derive(Clone, Copy, Debug, PartialEq, Eq, Structural)]
pub enum Shape {
    Line,
    N1,
    N2,
    L1,
    L2,
    T1,
    Square,
}

/// Four blocks that fall and turn as one; the second block is the pivot.
#[derive(Clone, Copy, Debug, PartialEq, Eq)]
pub struct Piece {
    pub blocks: [Block; 4],
}

impl View for Piece {
    type V = Seq<Block>;

    open spec fn view(&self) -> Seq<Block> {
        self.blocks@
    }
}

pub open spec fn blk(x: int, y: int, c: Color) -> Block {
    Block { point: Point { x: x as i16, y: y as i16 }, color: c }
}

/// The blocks of a shape before it is placed on a field.
pub open spec fn shape_blocks(s: Shape) -> Seq<Block> {
    match s {
        Shape::Line => seq![blk(0, -1, Color::Cyan), blk(0, 0, Color::Cyan), blk(0, 1, Color::Cyan), blk(0, 2, Color::Cyan)],
        Shape::N1 => seq![blk(-1, 0, Color::Yellow), blk(0, 0, Color::Yellow), blk(0, 1, Color::Yellow), blk(1, 1, Color::Yellow)],
        Shape::N2 => seq![blk(-1, 0, Color::Magenta), blk(0, 0, Color::Magenta), blk(0, -1, Color::Magenta), blk(1, -1, Color::Magenta)],
        Shape::L1 => seq![blk(-1, 0, Color::Green), blk(0, 0, Color::Green), blk(1, 0, Color::Green), blk(1, 1, Color::Green)],
        Shape::L2 => seq![blk(-1, 0, Color::Orange), blk(0, 0, Color::Orange), blk(1, 0, Color::Orange), blk(1, -1, Color::Orange)],
        Shape::T1 => seq![blk(-1, 0, Color::Blue), blk(0, 0, Color::Blue), blk(0, 1, Color::Blue), blk(1, 0, Color::Blue)],
        Shape::Square => seq![blk(0, 0, Color::Red), blk(1, 0, Color::Red), blk(1, 1, Color::Red), blk(0, 1, Color::Red)],
    }
}

/// The shape numbered `i`, in catalog order.
pub open spec fn shape_at(i: int) -> Shape {
    if i == 0 {
        Shape::Line
    } else if i == 1 {
        Shape::N1
    } else if i == 2 {
        Shape::N2
    } else if i == 3 {
        Shape::L1
    } else if i == 4 {
        Shape::L2
    } else if i == 5 {
        Shape::T1
    } else {
        Shape::Square
    }
}

/// A block moved from the catalog's frame to the top centre of a field of
/// the given width.
pub open spec fn spawn_block(b: Block, width: i16) -> Block {
    Block {
        point: Point { x: (b.point.x + width / 2 - 1) as i16, y: (b.point.y + 1) as i16 },
        color: b.color,
    }
}

/// A shape as it enters a field of the given width: centred, one row below the top.
pub open spec fn spawn_blocks(s: Shape, width: i16) -> Seq<Block> {
    shape_blocks(s).map_values(|b: Block| spawn_block(b, width))
}

/// A piece carried along by `t`.
pub open spec fn moved_blocks(p: Seq<Block>, t: Transform) -> Seq<Block> {
    p.map_values(|b: Block| move_block(t, b))
}

/// Whether every block of `p` stays on the `i16` grid under `t`.
pub open spec fn moved_blocks_in_range(p: Seq<Block>, t: Transform) -> bool {
    forall|i: int| 0 <= i < p.len() ==> moved_in_range(t, #[trigger] p[i].point)
}

/// Relies on rand's `Rng::gen_range` over the thread-local generator: a number
/// in `0..n`.
#[verifier::external_body]
pub(crate) fn random_below(n: usize) -> (r: usize)
    requires
        n > 0,
    ensures
        r < n,
{
    rand::Rng::gen_range(&mut rand::thread_rng(), 0..n)
}

impl Shape {
    /// The shape numbered `i`, in catalog order.
    pub fn from_index(i: usize) -> (r: Shape)
        requires
            i < 7,
        ensures
            r == shape_at(i as int),
    {
        if i == 0 {
            Shape::Line
        } else if i == 1 {
            Shape::N1
        } else if i == 2 {
            Shape::N2
        } else if i == 3 {
            Shape::L1
        } else if i == 4 {
            Shape::L2
        } else if i == 5 {
            Shape::T1
        } else {
            Shape::Square
        }
    }
}

impl Piece {
    /// A piece of four blocks of one colour at the given points.
    pub fn new(points: [[i16; 2]; 4], color: Color) -> (r: Piece)
        ensures
            r@.len() == 4,
            forall|i: int|
                0 <= i < 4 ==> #[trigger] r@[i] == (Block {
                    point: Point { x: points@[i]@[0], y: points@[i]@[1] },
                    color,
                }),
    {
        let b0 = Block { point: Point { x: points[0][0], y: points[0][1] }, color };
        let b1 = Block { point: Point { x: points[1][0], y: points[1][1] }, color };
        let b2 = Block { point: Point { x: points[2][0], y: points[2][1] }, color };
        let b3 = Block { point: Point { x: points[3][0], y: points[3][1] }, color };
        Piece { blocks: [b0, b1, b2, b3] }
    }

    /// The pivot turn of this piece: a quarter turn around its second block.
    pub fn rotate(&self) -> (r: Transform)
        ensures
            r == Transform::RotateAround(self@[1].point),
    {
        Transform::RotateAround(self.blocks[1].point)
    }

    pub fn line() -> (r: Piece)
        ensures
            r@ == shape_blocks(Shape::Line),
    {
        let r = Piece::new([[0, -1], [0, 0], [0, 1], [0, 2]], Color::Cyan);
        assert(r@ =~= shape_blocks(Shape::Line));
        r
    }

    pub fn n1_shape() -> (r: Piece)
        ensures
            r@ == shape_blocks(Shape::N1),
    {
        let r = Piece::new([[-1, 0], [0, 0], [0, 1], [1, 1]], Color::Yellow);
        assert(r@ =~= shape_blocks(Shape::N1));
        r
    }

    pub fn n2_shape() -> (r: Piece)
        ensures
            r@ == shape_blocks(Shape::N2),
    {
        let r = Piece::new([[-1, 0], [0, 0], [0, -1], [1, -1]], Color::Magenta);
        assert(r@ =~= shape_blocks(Shape::N2));
        r
    }

    pub fn l1_shape() -> (r: Piece)
        ensures
            r@ == shape_blocks(Shape::L1),
    {
        let r = Piece::new([[-1, 0], [0, 0], [1, 0], [1, 1]], Color::Green);
        assert(r@ =~= shape_blocks(Shape::L1));
        r
    }

    pub fn l2_shape() -> (r: Piece)
        ensures
            r@ == shape_blocks(Shape::L2),
    {
        let r = Piece::new([[-1, 0], [0, 0], [1, 0], [1, -1]], Color::Orange);
        assert(r@ =~= shape_blocks(Shape::L2));
        r
    }

    pub fn t1_shape() -> (r: Piece)
        ensures
            r@ == shape_blocks(Shape::T1),
    {
        let r = Piece::new([[-1, 0], [0, 0], [0, 1], [1, 0]], Color::Blue);
        assert(r@ =~= shape_blocks(Shape::T1));
        r
    }

    pub fn square_shape() -> (r: Piece)
        ensures
            r@ == shape_blocks(Shape::Square),
    {
        let r = Piece::new([[0, 0], [1, 0], [1, 1], [0, 1]], Color::Red);
        assert(r@ =~= shape_blocks(Shape::Square));
        r
    }

    /// The catalog piece of the given shape.
    pub fn of_shape(s: Shape) -> (r: Piece)
        ensures
            r@ == shape_blocks(s),
    {
        match s {
            Shape::Line => Piece::line(),
            Shape::N1 => Piece::n1_shape(),
            Shape::N2 => Piece::n2_shape(),
            Shape::L1 => Piece::l1_shape(),
            Shape::L2 => Piece::l2_shape(),
            Shape::T1 => Piece::t1_shape(),
            Shape::Square => Piece::square_shape(),
        }
    }

    /// A catalog piece, each of the seven shapes being equally likely.
    pub fn random() -> (r: Piece)
        ensures
            exists|s: Shape| r@ == shape_blocks(s),
    {
        let i = random_below(7);
        let s = Shape::from_index(i);
        Piece::of_shape(s)
    }

    /// The catalog piece of shape `s` as it enters a field of the given width.
    pub fn spawn(s: Shape, width: i16) -> (r: Piece)
        requires
            width > 0,
        ensures
            r@ == spawn_blocks(s, width),
    {
        let p = Piece::of_shape(s);
        let dx: i16 = width / 2 - 1;
        let b0 = Block { point: Point { x: p.blocks[0].point.x + dx, y: p.blocks[0].point.y + 1 }, color: p.blocks[0].color };
        let b1 = Block { point: Point { x: p.blocks[1].point.x + dx, y: p.blocks[1].point.y + 1 }, color: p.blocks[1].color };
        let b2 = Block { point: Point { x: p.blocks[2].point.x + dx, y: p.blocks[2].point.y + 1 }, color: p.blocks[2].color };
        let b3 = Block { point: Point { x: p.blocks[3].point.x + dx, y: p.blocks[3].point.y + 1 }, color: p.blocks[3].color };
        let r = Piece { blocks: [b0, b1, b2, b3] };
        assert(r@ =~= spawn_blocks(s, width));
        r
    }

    /// A random catalog piece at the top centre of a field of the given width.
    pub fn new_random_piece(width: i16) -> (r: Piece)
        requires
            width > 0,
        ensures
            exists|s: Shape| r@ == spawn_blocks(s, width),
    {
        let i = random_below(7);
        Piece::spawn(Shape::from_index(i), width)
    }

    /// This piece carried along by `t`, or `None` where a block would leave
    /// the `i16` grid.
    pub fn apply(&self, t: Transform) -> (r: Option<Piece>)
        ensures
            r is Some <==> moved_blocks_in_range(self@, t),
            r is Some ==> r->0@ == moved_blocks(self@, t),
    {
        let o0 = self.blocks[0].apply(t);
        let o1 = self.blocks[1].apply(t);
        let o2 = self.blocks[2].apply(t);
        let o3 = self.blocks[3].apply(t);
        match (o0, o1, o2, o3) {
            (Some(b0), Some(b1), Some(b2), Some(b3)) => {
                let r = Piece { blocks: [b0, b1, b2, b3] };
                assert(r@ =~= moved_blocks(self@, t));
                Some(r)
            },
            _ => {
                assert(!moved_in_range(t, self@[0].point) || !moved_in_range(t, self@[1].point)
                    || !moved_in_range(t, self@[2].point) || !moved_in_range(t, self@[3].point));
                None
            },
        }
    }
}

} // verus!
