use vstd::prelude::*;
use crate::geometry::{Block, Point, Transform, fits_i16, move_block, moved, moved_in_range};
use crate::piece::{Piece, Shape, moved_blocks, moved_blocks_in_range, random_below, shape_blocks, spawn_block, spawn_blocks};

verus! {

/// What can be done to a field.
#[derive(Clone, Copy, Debug, PartialEq, Eq)]
pub enum Event {
    /// Declares the size of a new game; only ever the first entry of a log.
    NewGame(i16, i16),
    /// Replaces the falling piece.
    NewPiece(Piece),
    MoveLeft,
    MoveRight,
    /// One row down; lands the piece when it rests on something.
    MoveDown,
    /// Straight down until the piece rests on something, then lands it.
    MoveAllTheWayDown,
    Rotate,
}

/// Why an event was refused.
#[derive(Clone, Copy, Debug, PartialEq, Eq, Structural)]
pub enum GameError {
    /// The game is over: the field takes no more events.
    GameOver,
    /// A game cannot be started again on a field that holds one.
    AlreadyStarted,
}

/// What a field is, apart from its log.
pub struct FieldState {
    pub width: i16,
    pub height: i16,
    pub active: Seq<Block>,
    pub blocks: Seq<Block>,
    pub score: u32,
    pub over: bool,
}

/// The playing field.
pub struct Board {
    pub width: i16,
    pub height: i16,
    pub active_piece: Piece,
    pub blocks: Vec<Block>,
    pub score: u32,
    pub is_game_over: bool,
    pub log: Vec<Event>,
}

impl View for Board {
    type V = FieldState;

    open spec fn view(&self) -> FieldState {
        FieldState {
            width: self.width,
            height: self.height,
            active: self.active_piece@,
            blocks: self.blocks@,
            score: self.score,
            over: self.is_game_over,
        }
    }
}

/// Whether some block of `blocks` stands at `(x, y)`.
pub open spec fn occupied(blocks: Seq<Block>, x: int, y: int) -> bool {
    exists|j: int| 0 <= j < blocks.len() && #[trigger] blocks[j].point.x == x && blocks[j].point.y == y
}

/// Whether `(x, y)` lies on the field and holds no settled block.
pub open spec fn cell_free(s: FieldState, x: int, y: int) -> bool {
    &&& 0 <= x < s.width
    &&& 0 <= y < s.height
    &&& !occupied(s.blocks, x, y)
}

/// Whether every block of `p` stands on a free cell of the field.
pub open spec fn fits(s: FieldState, p: Seq<Block>) -> bool {
    forall|i: int| 0 <= i < p.len() ==> cell_free(s, #[trigger] p[i].point.x as int, p[i].point.y as int)
}

/// Whether every block of `p`, carried along by `t`, would stand on a free cell.
pub open spec fn moved_fits(s: FieldState, p: Seq<Block>, t: Transform) -> bool {
    forall|i: int| 0 <= i < p.len() ==> cell_free(s, moved(t, #[trigger] p[i].point).0, moved(t, p[i].point).1)
}

/// The falling piece carried along by `t` where it fits there; otherwise nothing changes.
pub open spec fn try_move(s: FieldState, t: Transform) -> FieldState {
    if moved_fits(s, s.active, t) {
        FieldState { active: moved_blocks(s.active, t), ..s }
    } else {
        s
    }
}

/// Whether the falling piece rests on the floor or on a settled block.
pub open spec fn on_bottom(s: FieldState) -> bool {
    !moved_fits(s, s.active, Transform::Down)
}

/// The field once the falling piece has gone down as far as it can.
pub open spec fn dropped(s: FieldState) -> FieldState
    decreases s.height - s.active[0].point.y,
{
    if s.active.len() > 0 && !on_bottom(s) {
        dropped(try_move(s, Transform::Down))
    } else {
        s
    }
}

/// Whether every cell of row `y` holds a block.
pub open spec fn row_complete(blocks: Seq<Block>, width: int, y: int) -> bool {
    forall|x: int| 0 <= x < width ==> occupied(blocks, x, y)
}

/// The complete rows among `0..n`, in increasing order.
pub open spec fn complete_rows_upto(blocks: Seq<Block>, width: int, n: int) -> Seq<i16>
    decreases n,
{
    if n <= 0 {
        Seq::empty()
    } else if row_complete(blocks, width, n - 1) {
        complete_rows_upto(blocks, width, n - 1).push((n - 1) as i16)
    } else {
        complete_rows_upto(blocks, width, n - 1)
    }
}

/// How many of `rows` lie strictly below row `y`.
pub open spec fn count_below(rows: Seq<i16>, y: int) -> int
    decreases rows.len(),
{
    if rows.len() == 0 {
        0
    } else {
        count_below(rows.drop_last(), y) + if y < rows.last() { 1int } else { 0int }
    }
}

/// A block moved `k` rows down.
pub open spec fn shift_block(b: Block, k: int) -> Block {
    Block { point: Point { x: b.point.x, y: (b.point.y + k) as i16 }, color: b.color }
}

/// The blocks that survive the removal of `rows`, each moved down by the
/// number of removed rows below it, in the order they had.
pub open spec fn compact(blocks: Seq<Block>, rows: Seq<i16>) -> Seq<Block>
    decreases blocks.len(),
{
    if blocks.len() == 0 {
        Seq::empty()
    } else {
        let b = blocks.last();
        if rows.contains(b.point.y) {
            compact(blocks.drop_last(), rows)
        } else {
            compact(blocks.drop_last(), rows).push(shift_block(b, count_below(rows, b.point.y as int)))
        }
    }
}

/// The points for clearing `k` rows at once.
pub open spec fn points_for(k: int) -> u32 {
    if k == 1 {
        10
    } else if k == 2 {
        25
    } else if k == 3 {
        40
    } else if k == 4 {
        55
    } else {
        0
    }
}

/// The blocks settled once the falling piece has joined them.
pub open spec fn merged(s: FieldState) -> Seq<Block> {
    s.blocks + s.active
}

/// The complete rows once the falling piece has joined the settled blocks.
pub open spec fn cleared_rows(s: FieldState) -> Seq<i16> {
    complete_rows_upto(merged(s), s.width as int, s.height as int)
}

/// The field once the falling piece has landed: its blocks join the settled
/// ones, complete rows go, the rows above close up, and the score grows.
pub open spec fn settle(s: FieldState) -> FieldState {
    FieldState {
        blocks: compact(merged(s), cleared_rows(s)),
        score: s.score.saturating_add(points_for(cleared_rows(s).len() as int)),
        ..s
    }
}

/// A new falling piece enters; the game is over where it does not fit.
pub open spec fn spawn(s: FieldState, p: Seq<Block>) -> FieldState {
    FieldState { active: p, over: !fits(s, p), ..s }
}

/// The effect of an event on a running game, and whether the piece landed.
pub open spec fn step(s: FieldState, e: Event) -> (FieldState, bool) {
    match e {
        Event::NewGame(_, _) => (s, false),
        Event::NewPiece(p) => (FieldState { active: p@, ..s }, false),
        Event::MoveLeft => (try_move(s, Transform::Left), false),
        Event::MoveRight => (try_move(s, Transform::Right), false),
        Event::Rotate => (try_move(s, Transform::RotateAround(s.active[1].point)), false),
        Event::MoveDown => {
            let s1 = try_move(s, Transform::Down);
            if on_bottom(s1) {
                (settle(s1), true)
            } else {
                (s1, false)
            }
        },
        Event::MoveAllTheWayDown => (settle(dropped(s)), true),
    }
}

/// The field after an event on a running game, where a landing brings in
/// the catalog piece `next`.
pub open spec fn next_state(s: FieldState, e: Event, next: Shape) -> FieldState {
    if step(s, e).1 {
        spawn(step(s, e).0, spawn_blocks(next, s.width))
    } else {
        step(s, e).0
    }
}

/// Where a replayed log stands.
pub enum Phase {
    /// The size is declared; the first piece comes next.
    Bootstrap,
    /// Events apply.
    Ready,
    /// A piece has landed; the piece that follows it comes next.
    Spawning,
}

/// An empty field of the given size.
pub open spec fn fresh(w: i16, h: i16) -> FieldState {
    FieldState { width: w, height: h, active: Seq::empty(), blocks: Seq::empty(), score: 0, over: false }
}

/// The first entry of a log, replayed.
pub open spec fn replay_first(e: Event) -> Option<(FieldState, Phase)> {
    match e {
        Event::NewGame(w, h) => if w > 0 && h > 0 {
            Some((fresh(w, h), Phase::Bootstrap))
        } else {
            None
        },
        _ => None,
    }
}

/// A later entry of a log, replayed.
pub open spec fn replay_step(prev: Option<(FieldState, Phase)>, e: Event) -> Option<(FieldState, Phase)> {
    match prev {
        None => None,
        Some((s, ph)) => match ph {
            Phase::Bootstrap => match e {
                Event::NewPiece(p) => Some((FieldState { active: p@, ..s }, Phase::Ready)),
                _ => None,
            },
            Phase::Spawning => match e {
                Event::NewPiece(p) => Some((spawn(s, p@), Phase::Ready)),
                _ => None,
            },
            Phase::Ready => if s.over || e is NewGame {
                None
            } else if step(s, e).1 {
                Some((step(s, e).0, Phase::Spawning))
            } else {
                Some((step(s, e).0, Phase::Ready))
            },
        },
    }
}

/// A whole log, replayed from the start; `None` where it is no log of a game.
pub open spec fn replay(log: Seq<Event>) -> Option<(FieldState, Phase)>
    decreases log.len(),
{
    if log.len() == 0 {
        None
    } else if log.len() == 1 {
        replay_first(log[0])
    } else {
        replay_step(replay(log.drop_last()), log.last())
    }
}

/// Carrying a piece along fits exactly where the carried piece stays on the
/// `i16` grid and fits.
pub(crate) proof fn lemma_moved_fits(s: FieldState, p: Seq<Block>, t: Transform)
    ensures
        moved_fits(s, p, t) <==> (moved_blocks_in_range(p, t) && fits(s, moved_blocks(p, t))),
{
    let q = moved_blocks(p, t);
    if moved_fits(s, p, t) {
        assert forall|i: int| 0 <= i < q.len() implies cell_free(s, #[trigger] q[i].point.x as int, q[i].point.y as int) by {
            assert(q[i] == move_block(t, p[i]));
        }
    }
    if moved_blocks_in_range(p, t) && fits(s, q) {
        assert forall|i: int| 0 <= i < p.len() implies cell_free(s, moved(t, #[trigger] p[i].point).0, moved(t, p[i].point).1) by {
            assert(q[i] == move_block(t, p[i]));
            assert(cell_free(s, q[i].point.x as int, q[i].point.y as int));
        }
    }
}

/// Whether `rows` is strictly increasing.
pub open spec fn increasing(rows: Seq<i16>) -> bool {
    forall|i: int, j: int| 0 <= i < j < rows.len() ==> rows[i] < rows[j]
}

pub(crate) proof fn lemma_complete_rows_shape(blocks: Seq<Block>, width: int, n: int)
    requires
        n <= i16::MAX + 1,
    ensures
        increasing(complete_rows_upto(blocks, width, n)),
        forall|k: int|
            0 <= k < complete_rows_upto(blocks, width, n).len() ==> 0 <= #[trigger] complete_rows_upto(blocks, width, n)[k] < n,
    decreases n,
{
    if n > 0 {
        lemma_complete_rows_shape(blocks, width, n - 1);
    }
}

pub(crate) proof fn lemma_count_nonneg(rows: Seq<i16>, y: int)
    ensures
        0 <= count_below(rows, y) <= rows.len(),
    decreases rows.len(),
{
    if rows.len() > 0 {
        lemma_count_nonneg(rows.drop_last(), y);
    }
}

pub(crate) proof fn lemma_count_zero(rows: Seq<i16>, y: int)
    requires
        forall|k: int| 0 <= k < rows.len() ==> #[trigger] rows[k] <= y,
    ensures
        count_below(rows, y) == 0,
    decreases rows.len(),
{
    if rows.len() > 0 {
        lemma_count_zero(rows.drop_last(), y);
    }
}

/// Between two rows lie at most as many of `rows` as there are rows between them.
pub(crate) proof fn lemma_count_diff(rows: Seq<i16>, y1: int, y2: int)
    requires
        increasing(rows),
        y1 <= y2,
    ensures
        0 <= count_below(rows, y1) - count_below(rows, y2) <= y2 - y1,
    decreases rows.len(),
{
    if rows.len() > 0 {
        let prev = rows.drop_last();
        let l = rows.last() as int;
        assert(increasing(prev));
        lemma_count_diff(prev, y1, y2);
        if y1 < l && l <= y2 {
            assert forall|k: int| 0 <= k < prev.len() implies #[trigger] prev[k] <= l - 1 by {
                assert(rows[k] < rows[rows.len() - 1]);
            }
            lemma_count_zero(prev, y2);
            lemma_count_zero(prev, l - 1);
            lemma_count_diff(prev, y1, l - 1);
        }
    }
}

/// A row not among `rows` has as many of them below it as the row above it.
pub(crate) proof fn lemma_count_skip(rows: Seq<i16>, y: int)
    requires
        !rows.contains(y as i16),
        fits_i16(y),
    ensures
        count_below(rows, y - 1) == count_below(rows, y),
    decreases rows.len(),
{
    if rows.len() > 0 {
        assert(rows.drop_last().contains(y as i16) ==> rows.contains(y as i16)) by {
            if rows.drop_last().contains(y as i16) {
                let k = choose|k: int| 0 <= k < rows.drop_last().len() && rows.drop_last()[k] == y as i16;
                assert(rows[k] == y as i16);
            }
        }
        lemma_count_skip(rows.drop_last(), y);
        assert(rows.last() != y as i16) by {
            if rows.last() == y as i16 {
                assert(rows[rows.len() - 1] == y as i16);
            }
        }
    }
}

/// A row moved down past the removed rows below it stays on the field.
pub(crate) proof fn lemma_shift_bound(rows: Seq<i16>, height: int, y: int)
    requires
        increasing(rows),
        forall|k: int| 0 <= k < rows.len() ==> #[trigger] rows[k] < height,
        height <= i16::MAX,
    ensures
        0 <= count_below(rows, y),
        y + count_below(rows, y) <= if y < height { height - 1 } else { y },
{
    lemma_count_nonneg(rows, y);
    if y < height {
        lemma_count_zero(rows, height - 1);
        lemma_count_diff(rows, y, height - 1);
    } else {
        lemma_count_zero(rows, y);
    }
}

impl Board {
    /// The settled block at `p`, if any.
    pub fn block_at(&self, p: &Point) -> (r: Option<&Block>)
        ensures
            r is Some <==> occupied(self.blocks@, p.x as int, p.y as int),
            r is Some ==> r->0.point == *p && self.blocks@.contains(*r->0),
    {
        let mut i: usize = 0;
        while i < self.blocks.len()
            invariant
                0 <= i <= self.blocks@.len(),
                forall|j: int| 0 <= j < i ==> !(#[trigger] self.blocks@[j].point.x == p.x && self.blocks@[j].point.y == p.y),
            decreases self.blocks@.len() - i,
        {
            if self.blocks[i].point.x == p.x && self.blocks[i].point.y == p.y {
                return Some(&self.blocks[i]);
            }
            i += 1;
        }
        None
    }

    /// Whether `piece` lies on the field with no block on a settled one.
    pub fn does_piece_fit(&self, piece: &Piece) -> (r: bool)
        ensures
            r == fits(self@, piece@),
    {
        let mut i: usize = 0;
        while i < 4
            invariant
                i <= 4,
                forall|k: int| 0 <= k < i ==> cell_free(self@, #[trigger] piece@[k].point.x as int, piece@[k].point.y as int),
            decreases 4 - i,
        {
            let b = piece.blocks[i];
            if !(0 <= b.point.x && b.point.x < self.width && 0 <= b.point.y && b.point.y < self.height
                && self.block_at(&b.point).is_none()) {
                assert(!cell_free(self@, piece@[i as int].point.x as int, piece@[i as int].point.y as int));
                return false;
            }
            i += 1;
        }
        true
    }

    /// Whether the falling piece rests on the floor or on a settled block.
    pub fn is_piece_on_bottom(&self) -> (r: bool)
        ensures
            r == on_bottom(self@),
    {
        proof {
            lemma_moved_fits(self@, self@.active, Transform::Down);
        }
        match self.active_piece.apply(Transform::Down) {
            Some(c) => !self.does_piece_fit(&c),
            None => true,
        }
    }

    /// Carries the falling piece along by `t` where it fits there.
    pub fn move_piece(&mut self, t: Transform)
        ensures
            final(self)@ == try_move(old(self)@, t),
            final(self).log == old(self).log,
    {
        proof {
            lemma_moved_fits(self@, self@.active, t);
        }
        match self.active_piece.apply(t) {
            Some(c) => {
                if self.does_piece_fit(&c) {
                    self.active_piece = c;
                }
            },
            None => {},
        }
    }

    /// The points for clearing `rows` rows at once.
    pub fn get_points(rows: usize) -> (r: u32)
        ensures
            r == points_for(rows as int),
    {
        match rows {
            1 => 10,
            2 => 25,
            3 => 40,
            4 => 55,
            _ => 0,
        }
    }

    /// Whether every cell of row `y` holds a settled block.
    pub fn is_row_complete(&self, y: i16) -> (r: bool)
        requires
            self.width >= 0,
        ensures
            r == row_complete(self.blocks@, self.width as int, y as int),
    {
        let mut x: i16 = 0;
        while x < self.width
            invariant
                0 <= x <= self.width,
                forall|k: int| 0 <= k < x ==> occupied(self.blocks@, k, y as int),
            decreases self.width - x,
        {
            if self.block_at(&Point { x, y }).is_none() {
                return false;
            }
            x += 1;
        }
        true
    }

    /// The complete rows, in increasing order.
    pub fn complete_rows(&self) -> (r: Vec<i16>)
        requires
            self.width >= 0,
            self.height >= 0,
        ensures
            r@ == complete_rows_upto(self.blocks@, self.width as int, self.height as int),
    {
        let mut rows: Vec<i16> = Vec::new();
        let mut y: i16 = 0;
        while y < self.height
            invariant
                0 <= y <= self.height,
                self.width >= 0,
                rows@ == complete_rows_upto(self.blocks@, self.width as int, y as int),
            decreases self.height - y,
        {
            if self.is_row_complete(y) {
                rows.push(y);
            }
            y += 1;
        }
        rows
    }
}


impl Board {
    /// Whether `y` is among `rows`.
    fn row_listed(rows: &Vec<i16>, y: i16) -> (r: bool)
        ensures
            r == rows@.contains(y),
    {
        let mut j: usize = 0;
        while j < rows.len()
            invariant
                j <= rows@.len(),
                forall|k: int| 0 <= k < j ==> #[trigger] rows@[k] != y,
            decreases rows@.len() - j,
        {
            if rows[j] == y {
                assert(rows@[j as int] == y);
                return true;
            }
            j += 1;
        }
        false
    }

    /// How many of `rows` lie strictly below row `y`.
    fn rows_below(rows: &Vec<i16>, y: i16) -> (r: usize)
        ensures
            r == count_below(rows@, y as int),
    {
        let mut c: usize = 0;
        let mut j: usize = 0;
        while j < rows.len()
            invariant
                j <= rows@.len(),
                c <= j,
                c == count_below(rows@.take(j as int), y as int),
            decreases rows@.len() - j,
        {
            assert(rows@.take(j + 1).drop_last() =~= rows@.take(j as int));
            if y < rows[j] {
                c += 1;
            }
            j += 1;
        }
        assert(rows@.take(rows@.len() as int) =~= rows@);
        c
    }

    /// Removes the settled blocks of `rows` and moves each other settled block
    /// down by the number of removed rows below it.
    pub fn remove_and_shift_rows_down(&mut self, rows: &Vec<i16>)
        requires
            increasing(rows@),
            forall|k: int| 0 <= k < rows@.len() ==> #[trigger] rows@[k] < old(self).height,
        ensures
            final(self)@ == (FieldState { blocks: compact(old(self)@.blocks, rows@), ..old(self)@ }),
            final(self).active_piece == old(self).active_piece,
            final(self).log == old(self).log,
    {
        let mut kept: Vec<Block> = Vec::new();
        let mut i: usize = 0;
        while i < self.blocks.len()
            invariant
                i <= self.blocks@.len(),
                increasing(rows@),
                forall|k: int| 0 <= k < rows@.len() ==> #[trigger] rows@[k] < self.height,
                kept@ == compact(self.blocks@.take(i as int), rows@),
            decreases self.blocks@.len() - i,
        {
            let b = self.blocks[i];
            assert(self.blocks@.take(i + 1).drop_last() =~= self.blocks@.take(i as int));
            assert(self.blocks@.take(i + 1).last() == b);
            let ghost prefix = self.blocks@.take(i + 1);
            if !Board::row_listed(rows, b.point.y) {
                let c = Board::rows_below(rows, b.point.y);
                proof {
                    lemma_shift_bound(rows@, self.height as int, b.point.y as int);
                }
                let ny: i32 = b.point.y as i32 + c as i32;
                let nb = Block { point: Point { x: b.point.x, y: ny as i16 }, color: b.color };
                assert(nb == shift_block(b, count_below(rows@, b.point.y as int)));
                assert(compact(prefix, rows@) == compact(prefix.drop_last(), rows@).push(nb));
                kept.push(nb);
            } else {
                assert(compact(prefix, rows@) == compact(prefix.drop_last(), rows@));
            }
            i += 1;
        }
        assert(self.blocks@.take(self.blocks@.len() as int) =~= self.blocks@);
        self.blocks = kept;
    }

    /// Lands the falling piece: its blocks join the settled ones, complete
    /// rows go, the rows above close up, and the score grows by the points
    /// for the cleared rows.
    pub fn settle_piece(&mut self)
        requires
            old(self).width > 0,
            old(self).height > 0,
        ensures
            final(self)@ == settle(old(self)@),
            final(self).active_piece == old(self).active_piece,
            final(self).log == old(self).log,
    {
        let ghost s0 = self@;
        let mut i: usize = 0;
        while i < 4
            invariant
                i <= 4,
                self.blocks@ == s0.blocks + s0.active.take(i as int),
                self.active_piece == old(self).active_piece,
                self.active_piece@ == s0.active,
                self.width == s0.width,
                self.height == s0.height,
                self.score == s0.score,
                self.is_game_over == s0.over,
                self.log == old(self).log,
            decreases 4 - i,
        {
            assert(s0.active.take(i + 1) =~= s0.active.take(i as int).push(s0.active[i as int]));
            self.blocks.push(self.active_piece.blocks[i]);
            assert(self.blocks@ =~= s0.blocks + s0.active.take(i + 1));
            i += 1;
        }
        assert(s0.active.take(4) =~= s0.active);
        let rows = self.complete_rows();
        proof {
            lemma_complete_rows_shape(self.blocks@, self.width as int, self.height as int);
        }
        self.score = self.score.saturating_add(Board::get_points(rows.len()));
        self.remove_and_shift_rows_down(&rows);
    }

    /// Brings in `piece` as the falling piece; the game is over where it does
    /// not fit.
    pub fn enter_piece(&mut self, piece: Piece)
        requires
            !old(self).is_game_over,
        ensures
            final(self)@ == spawn(old(self)@, piece@),
            final(self).active_piece == piece,
            final(self).log == old(self).log,
    {
        self.active_piece = piece;
        if !self.does_piece_fit(&self.active_piece) {
            self.is_game_over = true;
        }
    }

    /// Lands the falling piece as `settle_piece` does, then brings in the
    /// catalog piece `next` at the top as `enter_piece` does.
    pub fn place_piece(&mut self, next: Shape)
        requires
            !old(self).is_game_over,
            old(self).width > 0,
            old(self).height > 0,
        ensures
            final(self)@ == spawn(settle(old(self)@), spawn_blocks(next, old(self).width)),
            final(self).log == old(self).log,
    {
        self.settle_piece();
        let p = Piece::spawn(next, self.width);
        self.enter_piece(p);
    }
}


impl Board {
    /// Whether the field is sized and its log replays to exactly its state.
    pub open spec fn wf(&self) -> bool {
        &&& self.width > 0
        &&& self.height > 0
        &&& replay(self.log@) == Some((self@, Phase::Ready))
    }

    /// An empty field of the given size with `piece` falling; the log holds
    /// the size and the piece.
    pub fn with_piece(width: i16, height: i16, piece: Piece) -> (r: Board)
        requires
            width > 0,
            height > 0,
        ensures
            r.wf(),
            r@ == (FieldState { active: piece@, ..fresh(width, height) }),
            r.active_piece == piece,
            r.log@ == seq![Event::NewGame(width, height), Event::NewPiece(piece)],
    {
        let r = Board {
            width,
            height,
            active_piece: piece,
            blocks: Vec::new(),
            score: 0,
            is_game_over: false,
            log: vec![Event::NewGame(width, height), Event::NewPiece(piece)],
        };
        assert(r.log@.drop_last() =~= seq![Event::NewGame(width, height)]);
        assert(replay(seq![Event::NewGame(width, height)]) == Some((fresh(width, height), Phase::Bootstrap))) by {
            assert(seq![Event::NewGame(width, height)][0] == Event::NewGame(width, height));
        }
        assert(r@ =~= (FieldState { active: piece@, ..fresh(width, height) }));
        r
    }

    /// An empty field of the given size with a random catalog piece falling
    /// at the top centre.
    pub fn new(width: i16, height: i16) -> (r: Board)
        requires
            width > 0,
            height > 0,
        ensures
            r.wf(),
            exists|s: Shape| r@ == (FieldState { active: #[trigger] spawn_blocks(s, width), ..fresh(width, height) }),
            r.log@ == seq![Event::NewGame(width, height), Event::NewPiece(r.active_piece)],
    {
        let piece = Piece::new_random_piece(width);
        Board::with_piece(width, height, piece)
    }

    /// As `new`, or `None` where the width or the height is not positive.
    pub fn try_new(width: i16, height: i16) -> (r: Option<Board>)
        ensures
            r is Some <==> width > 0 && height > 0,
            r is Some ==> r->0.wf() && r->0.width == width && r->0.height == height,
            r is Some ==> exists|s: Shape| r->0@ == (FieldState { active: #[trigger] spawn_blocks(s, width), ..fresh(width, height) }),
    {
        if width > 0 && height > 0 {
            Some(Board::new(width, height))
        } else {
            None
        }
    }

    /// Applies an event other than `NewGame` to a running game, without
    /// bringing in a new piece; returns whether the falling piece landed.
    pub fn step_event(&mut self, event: &Event) -> (placed: bool)
        requires
            !old(self).is_game_over,
            old(self).width > 0,
            old(self).height > 0,
            !(event is NewGame),
        ensures
            (final(self)@, placed) == step(old(self)@, *event),
            final(self).is_game_over == old(self).is_game_over,
            final(self).width == old(self).width,
            final(self).height == old(self).height,
            final(self).log == old(self).log,
    {
        let ghost s0 = self@;
        match event {
            Event::NewGame(_, _) => false,
            Event::NewPiece(p) => {
                self.active_piece = *p;
                false
            },
            Event::MoveLeft => {
                self.move_piece(Transform::Left);
                false
            },
            Event::MoveRight => {
                self.move_piece(Transform::Right);
                false
            },
            Event::Rotate => {
                let t = self.active_piece.rotate();
                self.move_piece(t);
                false
            },
            Event::MoveDown => {
                self.move_piece(Transform::Down);
                if self.is_piece_on_bottom() {
                    self.settle_piece();
                    true
                } else {
                    false
                }
            },
            Event::MoveAllTheWayDown => {
                while !self.is_piece_on_bottom()
                    invariant
                        dropped(self@) == dropped(s0),
                        self.width == s0.width,
                        self.height == s0.height,
                        self.is_game_over == s0.over,
                        self.log == old(self).log,
                    decreases self.height - self.active_piece.blocks[0].point.y,
                {
                    self.move_piece(Transform::Down);
                }
                self.settle_piece();
                true
            },
        }
    }

    /// Applies one event; where the piece lands, the catalog piece `next`
    /// enters. A finished game refuses every event, and a started one refuses
    /// `NewGame`; a refused event changes nothing. An applied event is logged,
    /// followed, where the piece landed, by the piece that entered.
    pub fn apply_with(&mut self, event: &Event, next: Shape) -> (r: Result<(), GameError>)
        requires
            old(self).wf(),
        ensures
            final(self).wf(),
            old(self).is_game_over ==> r == Err::<(), GameError>(GameError::GameOver) && *final(self) == *old(self),
            !old(self).is_game_over && event is NewGame ==> r == Err::<(), GameError>(GameError::AlreadyStarted)
                && *final(self) == *old(self),
            !old(self).is_game_over && !(event is NewGame) ==> {
                &&& r is Ok
                &&& final(self)@ == next_state(old(self)@, *event, next)
                &&& final(self).log@ == if step(old(self)@, *event).1 {
                    old(self).log@.push(*event).push(Event::NewPiece(final(self).active_piece))
                } else {
                    old(self).log@.push(*event)
                }
            },
    {
        if self.is_game_over {
            return Err(GameError::GameOver);
        }
        if let Event::NewGame(_, _) = event {
            return Err(GameError::AlreadyStarted);
        }
        let ghost log0 = self.log@;
        let ghost s0 = self@;
        proof {
            assert(log0.len() >= 2) by {
                if log0.len() == 1 {
                    assert(replay(log0) == replay_first(log0[0]));
                }
            }
        }
        let placed = self.step_event(event);
        self.log.push(*event);
        proof {
            assert(self.log@.drop_last() =~= log0);
            assert(replay(self.log@) == replay_step(Some((s0, Phase::Ready)), *event));
        }
        if placed {
            let ghost log1 = self.log@;
            let ghost s1 = self@;
            assert(replay(log1) == Some((s1, Phase::Spawning)));
            let p = Piece::spawn(next, self.width);
            self.enter_piece(p);
            self.log.push(Event::NewPiece(self.active_piece));
            proof {
                assert(self.log@.drop_last() =~= log1);
            }
        }
        Ok(())
    }

    /// Applies one event as `apply_with` does, the piece that enters after a
    /// landing being drawn at random from the catalog.
    pub fn apply(&mut self, event: &Event) -> (r: Result<(), GameError>)
        requires
            old(self).wf(),
        ensures
            final(self).wf(),
            old(self).is_game_over ==> r == Err::<(), GameError>(GameError::GameOver) && *final(self) == *old(self),
            !old(self).is_game_over && event is NewGame ==> r == Err::<(), GameError>(GameError::AlreadyStarted)
                && *final(self) == *old(self),
            !old(self).is_game_over && !(event is NewGame) ==> r is Ok
                && exists|s: Shape| final(self)@ == #[trigger] next_state(old(self)@, *event, s),
    {
        let i = random_below(7);
        self.apply_with(event, Shape::from_index(i))
    }
}

/// The event that a key code of the terminal stands for: the arrow keys move
/// and turn the piece, the space bar drops it.
pub open spec fn key_event(ch: i32) -> Option<Event> {
    if ch == 65 {
        Some(Event::Rotate)
    } else if ch == 68 {
        Some(Event::MoveLeft)
    } else if ch == 67 {
        Some(Event::MoveRight)
    } else if ch == 66 {
        Some(Event::MoveDown)
    } else if ch == 32 {
        Some(Event::MoveAllTheWayDown)
    } else {
        None
    }
}

/// The event that a key code of the terminal stands for, if any.
pub fn event_for_key(ch: i32) -> (r: Option<Event>)
    ensures
        r == key_event(ch),
{
    if ch == 65 {
        Some(Event::Rotate)
    } else if ch == 68 {
        Some(Event::MoveLeft)
    } else if ch == 67 {
        Some(Event::MoveRight)
    } else if ch == 66 {
        Some(Event::MoveDown)
    } else if ch == 32 {
        Some(Event::MoveAllTheWayDown)
    } else {
        None
    }
}


/// Whether a log replays to a game that takes events.
pub open spec fn replays_ready(log: Seq<Event>) -> bool {
    match replay(log) {
        Some((_, Phase::Ready)) => true,
        _ => false,
    }
}

/// Once a log has gone wrong, no entry after it mends it.
proof fn lemma_replay_stays_none(log: Seq<Event>, i: int)
    requires
        1 <= i <= log.len(),
        replay(log.take(i)) is None,
    ensures
        replay(log) is None,
    decreases log.len(),
{
    if log.len() > i {
        assert(log.drop_last().take(i) =~= log.take(i));
        lemma_replay_stays_none(log.drop_last(), i);
    } else {
        assert(log.take(i) =~= log);
    }
}

impl Board {
    /// Rebuilds a field from a log: the size and the first piece, then each
    /// event in turn, each landing followed by the piece that entered. `None`
    /// where the log is no complete log of a game.
    pub fn from_log(log: &Vec<Event>) -> (r: Option<Board>)
        ensures
            r is Some <==> replays_ready(log@),
            r is Some ==> r->0.wf() && r->0.log@ == log@,
    {
        if log.len() < 2 {
            proof {
                if log@.len() == 1 {
                    assert(replay(log@) == replay_first(log@[0]));
                }
            }
            return None;
        }
        proof {
            assert(replay(log@.take(1)) == replay_first(log@[0])) by {
                assert(log@.take(1)[0] == log@[0]);
            }
            assert(log@.take(2).drop_last() =~= log@.take(1));
            assert(log@.take(2).last() == log@[1]);
        }
        let (w, h) = match log[0] {
            Event::NewGame(w, h) => (w, h),
            _ => {
                proof {
                    lemma_replay_stays_none(log@, 1);
                }
                return None;
            },
        };
        if !(w > 0 && h > 0) {
            proof {
                lemma_replay_stays_none(log@, 1);
            }
            return None;
        }
        let p = match log[1] {
            Event::NewPiece(p) => p,
            _ => {
                proof {
                    lemma_replay_stays_none(log@, 2);
                }
                return None;
            },
        };
        let mut b = Board::with_piece(w, h, p);
        assert(b.log@ =~= log@.take(2));
        let mut spawning = false;
        let mut i: usize = 2;
        while i < log.len()
            invariant
                2 <= i <= log@.len(),
                b.width > 0,
                b.height > 0,
                b.log@ == log@.take(i as int),
                spawning ==> !b.is_game_over,
                replay(log@.take(i as int)) == Some((b@, if spawning { Phase::Spawning } else { Phase::Ready })),
            decreases log@.len() - i,
        {
            let e = log[i];
            proof {
                assert(log@.take(i + 1).drop_last() =~= log@.take(i as int));
                assert(log@.take(i + 1).last() == e);
            }
            if spawning {
                match e {
                    Event::NewPiece(q) => {
                        b.enter_piece(q);
                        spawning = false;
                    },
                    _ => {
                        proof {
                            lemma_replay_stays_none(log@, i + 1);
                        }
                        return None;
                    },
                }
            } else {
                if b.is_game_over {
                    proof {
                        lemma_replay_stays_none(log@, i + 1);
                    }
                    return None;
                }
                if let Event::NewGame(_, _) = e {
                    proof {
                        lemma_replay_stays_none(log@, i + 1);
                    }
                    return None;
                }
                spawning = b.step_event(&e);
            }
            b.log.push(e);
            i += 1;
        }
        assert(log@.take(log@.len() as int) =~= log@);
        if spawning {
            return None;
        }
        Some(b)
    }
}

} // verus!
