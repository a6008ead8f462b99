//! What holds of every field that events reach, of clearing rows, and of logs.

use vstd::prelude::*;
use crate::board::{
    Board, Event, FieldState, cell_free, cleared_rows, compact, count_below, dropped, fits,
    fresh, increasing, lemma_complete_rows_shape, lemma_count_diff, lemma_count_skip,
    lemma_moved_fits, lemma_shift_bound, merged, moved_fits, next_state, on_bottom, settle,
    shift_block, spawn, step, try_move,
};
use crate::geometry::{Block, Transform, move_block, moved_in_range};
use crate::piece::{Shape, moved_blocks, shape_blocks, spawn_block, spawn_blocks};

verus! {

/// A log determines the field: two well-formed fields with the same log agree
/// on their falling piece, settled blocks, score and game-over flag.
pub proof fn lemma_replay_determinism(a: &Board, b: &Board)
    requires
        a.wf(),
        b.wf(),
        a.log@ == b.log@,
    ensures
        a@ == b@,
{
}

/// Every block that stays after clearing rows comes from a block outside them.
proof fn lemma_compact_origin(blocks: Seq<Block>, rows: Seq<i16>)
    ensures
        forall|j: int| 0 <= j < compact(blocks, rows).len() ==> exists|i: int| {
            &&& 0 <= i < blocks.len()
            &&& !rows.contains(blocks[i].point.y)
            &&& #[trigger] compact(blocks, rows)[j] == shift_block(blocks[i], count_below(rows, blocks[i].point.y as int))
        },
    decreases blocks.len(),
{
    if blocks.len() > 0 {
        let prev = blocks.drop_last();
        let n = blocks.len() - 1;
        lemma_compact_origin(prev, rows);
        let c = compact(blocks, rows);
        let cp = compact(prev, rows);
        assert forall|j: int| 0 <= j < c.len() implies exists|i: int| {
            &&& 0 <= i < blocks.len()
            &&& !rows.contains(blocks[i].point.y)
            &&& #[trigger] c[j] == shift_block(blocks[i], count_below(rows, blocks[i].point.y as int))
        } by {
            if j < cp.len() {
                assert(c[j] == cp[j]);
                let i = choose|i: int| {
                    &&& 0 <= i < prev.len()
                    &&& !rows.contains(prev[i].point.y)
                    &&& #[trigger] cp[j] == shift_block(prev[i], count_below(rows, prev[i].point.y as int))
                };
                assert(prev[i] == blocks[i]);
            } else {
                assert(blocks[n] == blocks.last());
            }
        }
    }
}

/// Clearing rows: every block that stays comes from a block outside the
/// cleared rows, moved down by the number of cleared rows below it; and every
/// block outside the cleared rows stays, moved down in that way.
pub proof fn lemma_compact_rows(blocks: Seq<Block>, rows: Seq<i16>)
    ensures
        forall|j: int| 0 <= j < compact(blocks, rows).len() ==> exists|i: int| {
            &&& 0 <= i < blocks.len()
            &&& !rows.contains(blocks[i].point.y)
            &&& #[trigger] compact(blocks, rows)[j] == shift_block(blocks[i], count_below(rows, blocks[i].point.y as int))
        },
        forall|i: int| 0 <= i < blocks.len() && !rows.contains(#[trigger] blocks[i].point.y) ==> exists|j: int| {
            &&& 0 <= j < compact(blocks, rows).len()
            &&& #[trigger] compact(blocks, rows)[j] == shift_block(blocks[i], count_below(rows, blocks[i].point.y as int))
        },
    decreases blocks.len(),
{
    if blocks.len() > 0 {
        let prev = blocks.drop_last();
        let n = blocks.len() - 1;
        lemma_compact_rows(prev, rows);
        let c = compact(blocks, rows);
        let cp = compact(prev, rows);
        assert forall|j: int| 0 <= j < c.len() implies exists|i: int| {
            &&& 0 <= i < blocks.len()
            &&& !rows.contains(blocks[i].point.y)
            &&& #[trigger] c[j] == shift_block(blocks[i], count_below(rows, blocks[i].point.y as int))
        } by {
            if j < cp.len() {
                assert(c[j] == cp[j]);
                let i = choose|i: int| {
                    &&& 0 <= i < prev.len()
                    &&& !rows.contains(prev[i].point.y)
                    &&& #[trigger] cp[j] == shift_block(prev[i], count_below(rows, prev[i].point.y as int))
                };
                assert(prev[i] == blocks[i]);
            } else {
                assert(blocks[n] == blocks.last());
            }
        }
        assert forall|i: int| 0 <= i < blocks.len() && !rows.contains(#[trigger] blocks[i].point.y) implies exists|j: int| {
            &&& 0 <= j < c.len()
            &&& #[trigger] c[j] == shift_block(blocks[i], count_below(rows, blocks[i].point.y as int))
        } by {
            if i < n {
                assert(prev[i] == blocks[i]);
                let j = choose|j: int| {
                    &&& 0 <= j < cp.len()
                    &&& #[trigger] cp[j] == shift_block(prev[i], count_below(rows, prev[i].point.y as int))
                };
                assert(c[j] == cp[j]);
            } else {
                assert(blocks[i] == blocks.last());
                assert(c[cp.len() as int] == shift_block(blocks[i], count_below(rows, blocks[i].point.y as int)));
            }
        }
    }
}


/// Whether every block of `b` lies on the field.
pub open spec fn on_field(s: FieldState, b: Seq<Block>) -> bool {
    forall|i: int| 0 <= i < b.len() ==> 0 <= #[trigger] b[i].point.x < s.width && 0 <= b[i].point.y < s.height
}

/// Whether no two blocks of `b` share a point.
pub open spec fn distinct_points(b: Seq<Block>) -> bool {
    forall|i: int, j: int| 0 <= i < b.len() && 0 <= j < b.len() && i != j ==> #[trigger] b[i].point != #[trigger] b[j].point
}

/// What holds of every field reached by events: the settled blocks lie on
/// the field and never share a point, and while the game runs the falling
/// piece fits and its blocks are apart.
pub open spec fn sound(s: FieldState) -> bool {
    &&& on_field(s, s.blocks)
    &&& distinct_points(s.blocks)
    &&& !s.over ==> fits(s, s.active) && distinct_points(s.active)
}

/// Whether a `NewPiece` event brings a piece that fits with its blocks apart.
pub open spec fn admissible(s: FieldState, e: Event) -> bool {
    match e {
        Event::NewPiece(p) => fits(s, p@) && distinct_points(p@),
        _ => true,
    }
}

proof fn lemma_try_move_sound(s: FieldState, t: Transform)
    requires
        sound(s),
        !s.over,
    ensures
        sound(try_move(s, t)),
        !try_move(s, t).over,
{
    lemma_moved_fits(s, s.active, t);
    if moved_fits(s, s.active, t) {
        let q = moved_blocks(s.active, t);
        assert forall|i: int, j: int| 0 <= i < q.len() && 0 <= j < q.len() && i != j implies #[trigger] q[i].point != #[trigger] q[j].point by {
            assert(q[i] == move_block(t, s.active[i]));
            assert(q[j] == move_block(t, s.active[j]));
            assert(moved_in_range(t, s.active[i].point));
            assert(moved_in_range(t, s.active[j].point));
            assert(s.active[i].point != s.active[j].point);
        }
    }
}

proof fn lemma_dropped_sound(s: FieldState)
    requires
        sound(s),
        !s.over,
    ensures
        sound(dropped(s)),
        !dropped(s).over,
        dropped(s).width == s.width && dropped(s).height == s.height,
        dropped(s).active.len() == s.active.len(),
    decreases s.height - s.active[0].point.y,
{
    if s.active.len() > 0 && !on_bottom(s) {
        lemma_try_move_sound(s, Transform::Down);
        lemma_dropped_sound(try_move(s, Transform::Down));
    }
}

/// Two blocks apart on the field, outside the cleared rows, stay apart once
/// moved down.
proof fn lemma_shift_injective(rows: Seq<i16>, height: int, a: Block, b: Block)
    requires
        increasing(rows),
        forall|k: int| 0 <= k < rows.len() ==> #[trigger] rows[k] < height,
        height <= i16::MAX,
        0 <= a.point.y < height,
        0 <= b.point.y < height,
        !rows.contains(a.point.y),
        !rows.contains(b.point.y),
        a.point != b.point,
    ensures
        shift_block(a, count_below(rows, a.point.y as int)).point != shift_block(b, count_below(rows, b.point.y as int)).point,
{
    lemma_shift_bound(rows, height, a.point.y as int);
    lemma_shift_bound(rows, height, b.point.y as int);
    if a.point.y < b.point.y {
        lemma_count_skip(rows, b.point.y as int);
        lemma_count_diff(rows, a.point.y as int, b.point.y - 1);
    } else if b.point.y < a.point.y {
        lemma_count_skip(rows, a.point.y as int);
        lemma_count_diff(rows, b.point.y as int, a.point.y - 1);
    }
}

/// A block outside the cleared rows, once moved down, is apart from the
/// moved blocks that came before it.
proof fn lemma_compact_new_apart(s: FieldState, blocks: Seq<Block>, rows: Seq<i16>)
    requires
        blocks.len() > 0,
        on_field(s, blocks),
        distinct_points(blocks),
        increasing(rows),
        forall|k: int| 0 <= k < rows.len() ==> #[trigger] rows[k] < s.height,
        !rows.contains(blocks.last().point.y),
    ensures
        forall|j: int| 0 <= j < compact(blocks.drop_last(), rows).len() ==>
            (#[trigger] compact(blocks.drop_last(), rows)[j]).point
                != shift_block(blocks.last(), count_below(rows, blocks.last().point.y as int)).point,
{
    let prev = blocks.drop_last();
    let n = blocks.len() - 1;
    let b = blocks.last();
    assert(blocks[n] == b);
    lemma_compact_origin(prev, rows);
    let cp = compact(prev, rows);
    assert forall|j: int| 0 <= j < cp.len() implies (#[trigger] cp[j]).point
        != shift_block(b, count_below(rows, b.point.y as int)).point by {
        let i = choose|i: int| {
            &&& 0 <= i < prev.len()
            &&& !rows.contains(prev[i].point.y)
            &&& #[trigger] cp[j] == shift_block(prev[i], count_below(rows, prev[i].point.y as int))
        };
        assert(prev[i] == blocks[i]);
        assert(blocks[i].point != blocks[n].point);
        lemma_shift_injective(rows, s.height as int, prev[i], b);
    }
}

/// Clearing rows keeps blocks on the field and apart.
proof fn lemma_compact_sound(s: FieldState, blocks: Seq<Block>, rows: Seq<i16>)
    requires
        on_field(s, blocks),
        distinct_points(blocks),
        increasing(rows),
        forall|k: int| 0 <= k < rows.len() ==> #[trigger] rows[k] < s.height,
    ensures
        on_field(s, compact(blocks, rows)),
        distinct_points(compact(blocks, rows)),
    decreases blocks.len(),
{
    if blocks.len() > 0 {
        let prev = blocks.drop_last();
        let b = blocks.last();
        assert(on_field(s, prev) && distinct_points(prev)) by {
            assert forall|i: int| 0 <= i < prev.len() implies prev[i] == blocks[i] by {}
        }
        lemma_compact_sound(s, prev, rows);
        let cp = compact(prev, rows);
        let c = compact(blocks, rows);
        if !rows.contains(b.point.y) {
            let nb = shift_block(b, count_below(rows, b.point.y as int));
            assert(c == cp.push(nb));
            lemma_shift_bound(rows, s.height as int, b.point.y as int);
            assert(0 <= b.point.y < s.height) by {
                assert(blocks[blocks.len() - 1] == b);
            }
            lemma_compact_new_apart(s, blocks, rows);
            assert forall|i: int| 0 <= i < c.len() implies 0 <= #[trigger] c[i].point.x < s.width && 0 <= c[i].point.y < s.height by {
                if i < cp.len() {
                    assert(c[i] == cp[i]);
                } else {
                    assert(blocks[blocks.len() - 1] == b);
                }
            }
            assert forall|i: int, j: int| 0 <= i < c.len() && 0 <= j < c.len() && i != j implies #[trigger] c[i].point != #[trigger] c[j].point by {
                if i < cp.len() && j < cp.len() {
                    assert(c[i] == cp[i] && c[j] == cp[j]);
                } else if i < cp.len() {
                    assert(c[i] == cp[i] && c[j] == nb);
                } else {
                    assert(c[j] == cp[j] && c[i] == nb);
                }
            }
        } else {
            assert(c == cp);
        }
    }
}

proof fn lemma_merged_sound(s: FieldState)
    requires
        sound(s),
        !s.over,
    ensures
        on_field(s, merged(s)),
        distinct_points(merged(s)),
{
    let m = merged(s);
    let nb = s.blocks.len();
    assert forall|i: int| 0 <= i < m.len() implies 0 <= #[trigger] m[i].point.x < s.width && 0 <= m[i].point.y < s.height by {
        if i >= nb {
            assert(m[i] == s.active[i - nb]);
            assert(cell_free(s, s.active[i - nb].point.x as int, s.active[i - nb].point.y as int));
        }
    }
    assert forall|i: int, j: int| 0 <= i < m.len() && 0 <= j < m.len() && i != j implies #[trigger] m[i].point != #[trigger] m[j].point by {
        if i < nb && j < nb {
            assert(m[i] == s.blocks[i] && m[j] == s.blocks[j]);
        } else if i >= nb && j >= nb {
            assert(m[i] == s.active[i - nb] && m[j] == s.active[j - nb]);
        } else if i < nb {
            assert(m[i] == s.blocks[i] && m[j] == s.active[j - nb]);
            assert(cell_free(s, s.active[j - nb].point.x as int, s.active[j - nb].point.y as int));
        } else {
            assert(m[j] == s.blocks[j] && m[i] == s.active[i - nb]);
            assert(cell_free(s, s.active[i - nb].point.x as int, s.active[i - nb].point.y as int));
        }
    }
}

proof fn lemma_spawn_distinct(sh: Shape, width: i16)
    requires
        width > 0,
    ensures
        distinct_points(spawn_blocks(sh, width)),
{
    let q = spawn_blocks(sh, width);
    assert forall|i: int, j: int| 0 <= i < q.len() && 0 <= j < q.len() && i != j implies #[trigger] q[i].point != #[trigger] q[j].point by {
        assert(q[i] == spawn_block(shape_blocks(sh)[i], width));
        assert(q[j] == spawn_block(shape_blocks(sh)[j], width));
    }
}

proof fn lemma_settle_spawn_sound(s: FieldState, next: Shape)
    requires
        sound(s),
        !s.over,
        s.width > 0,
        s.height > 0,
    ensures
        sound(spawn(settle(s), spawn_blocks(next, s.width))),
{
    lemma_merged_sound(s);
    lemma_complete_rows_shape(merged(s), s.width as int, s.height as int);
    lemma_compact_sound(s, merged(s), cleared_rows(s));
    lemma_spawn_distinct(next, s.width);
}

/// Events keep a field sound: the settled blocks never share a point, and
/// while the game runs the falling piece fits; a landing ends the game
/// exactly where the entering piece does not fit. This holds of every event
/// but a `NewPiece` whose piece does not fit or has two blocks on one point.
pub proof fn lemma_step_sound(s: FieldState, e: Event, next: Shape)
    requires
        sound(s),
        !s.over,
        s.width > 0,
        s.height > 0,
        s.active.len() == 4,
        admissible(s, e),
    ensures
        sound(next_state(s, e, next)),
        step(s, e).1 ==> next_state(s, e, next).over == !fits(next_state(s, e, next), next_state(s, e, next).active),
{
    match e {
        Event::MoveLeft => lemma_try_move_sound(s, Transform::Left),
        Event::MoveRight => lemma_try_move_sound(s, Transform::Right),
        Event::Rotate => lemma_try_move_sound(s, Transform::RotateAround(s.active[1].point)),
        Event::MoveDown => {
            let s1 = try_move(s, Transform::Down);
            lemma_try_move_sound(s, Transform::Down);
            if on_bottom(s1) {
                lemma_settle_spawn_sound(s1, next);
            }
        },
        Event::MoveAllTheWayDown => {
            lemma_dropped_sound(s);
            lemma_settle_spawn_sound(dropped(s), next);
        },
        _ => {},
    }
}

/// A new field whose first piece fits, with its blocks apart, is sound.
pub proof fn lemma_fresh_sound(width: i16, height: i16, p: Seq<Block>)
    requires
        fits(fresh(width, height), p),
        distinct_points(p),
    ensures
        sound(FieldState { active: p, ..fresh(width, height) }),
{
    let s = FieldState { active: p, ..fresh(width, height) };
    assert forall|i: int| 0 <= i < p.len() implies cell_free(s, #[trigger] p[i].point.x as int, p[i].point.y as int) by {
        assert(cell_free(fresh(width, height), p[i].point.x as int, p[i].point.y as int));
    }
}

} // verus!
