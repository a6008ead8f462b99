use tetris::board::{event_for_key, Board, Event, GameError};
use tetris::geometry::{Block, Color, Point, Transform};
use tetris::piece::{Piece, Shape};

fn cyan(points: [[i16; 2]; 4]) -> Piece {
    Piece::new(points, Color::Cyan)
}

fn drop_piece(b: &mut Board, p: Piece) {
    assert_eq!(b.apply_with(&Event::NewPiece(p), Shape::Square), Ok(()));
    assert_eq!(b.apply_with(&Event::MoveAllTheWayDown, Shape::Square), Ok(()));
}

fn has_block(b: &Board, x: i16, y: i16) -> bool {
    b.blocks.iter().any(|bl| bl.point.x == x && bl.point.y == y)
}

#[test]
fn test_board1() {
    Board::new(10, 30);
}

#[test]
fn test_board2() {
    let b = Board::new(10, 30);
    assert_eq!(true, b.does_piece_fit(&b.active_piece));
}

#[test]
fn test_board3() {
    let b = Board::new(10, 30);
    assert_eq!(false, b.is_piece_on_bottom());
}

#[test]
fn test_move_down1() {
    let mut b = Board::new(10, 30);
    let y1 = b.active_piece.blocks.first().unwrap().point.y;
    assert_eq!(b.apply(&Event::MoveDown), Ok(()));
    let y2 = b.active_piece.blocks.first().unwrap().point.y;
    assert_eq!(y2, y1 + 1);
}

#[test]
fn new_field_piece_fits() {
    for _ in 0..50 {
        let b = Board::new(10, 20);
        assert!(b.does_piece_fit(&b.active_piece));
        assert_eq!(b.score, 0);
        assert!(!b.is_game_over);
        assert!(b.blocks.is_empty());
        assert_eq!(b.log.len(), 2);
        assert_eq!(b.log[0], Event::NewGame(10, 20));
        assert_eq!(b.log[1], Event::NewPiece(b.active_piece));
    }
}

#[test]
fn spawn_is_centred_one_row_down() {
    let p = Piece::spawn(Shape::Line, 10);
    let pts: Vec<(i16, i16)> = p.blocks.iter().map(|b| (b.point.x, b.point.y)).collect();
    assert_eq!(pts, vec![(4, 0), (4, 1), (4, 2), (4, 3)]);
    let q = Piece::spawn(Shape::Square, 7);
    let pts: Vec<(i16, i16)> = q.blocks.iter().map(|b| (b.point.x, b.point.y)).collect();
    assert_eq!(pts, vec![(2, 1), (3, 1), (3, 2), (2, 2)]);
    assert!(q.blocks.iter().all(|b| b.color == Color::Red));
}

#[test]
fn random_pieces_vary() {
    let first = Piece::random();
    let mut differs = false;
    for _ in 0..300 {
        if Piece::random() != first {
            differs = true;
        }
    }
    assert!(differs);
}

#[test]
fn rotate_four_times_is_identity() {
    let pivot = Point { x: 3, y: -2 };
    let p = Point { x: 7, y: 5 };
    let mut q = p;
    for _ in 0..4 {
        q = q.rotate_around(&pivot).unwrap();
    }
    assert_eq!(q, p);
    let once = p.rotate_around(&pivot).unwrap();
    assert_eq!(once, Point { x: 3 + (-2 - 5), y: -2 + (7 - 3) });
}

#[test]
fn rotate_out_of_range_is_none() {
    let p = Point { x: 0, y: i16::MIN };
    assert_eq!(p.rotate_around(&Point { x: 0, y: 1 }), None);
    assert_eq!(Point { x: 1, y: i16::MAX }.apply(Transform::Down), None);
}

#[test]
fn line_rotated_four_times_returns() {
    let mut b = Board::with_piece(10, 20, cyan([[4, 5], [4, 6], [4, 7], [4, 8]]));
    let before = b.active_piece;
    assert_eq!(b.apply_with(&Event::Rotate, Shape::Square), Ok(()));
    assert_ne!(b.active_piece, before);
    for _ in 0..3 {
        assert_eq!(b.apply_with(&Event::Rotate, Shape::Square), Ok(()));
    }
    assert_eq!(b.active_piece, before);
}

#[test]
fn move_left_at_wall_is_no_op() {
    let p = cyan([[0, 3], [0, 4], [0, 5], [0, 6]]);
    let mut b = Board::with_piece(10, 20, p);
    assert_eq!(b.apply_with(&Event::MoveLeft, Shape::Square), Ok(()));
    assert_eq!(b.active_piece, p);
    assert_eq!(b.log.len(), 3);
    assert_eq!(b.log[2], Event::MoveLeft);
}

#[test]
fn move_right_moves_one_column() {
    let p = cyan([[0, 3], [0, 4], [0, 5], [0, 6]]);
    let mut b = Board::with_piece(10, 20, p);
    assert_eq!(b.apply_with(&Event::MoveRight, Shape::Square), Ok(()));
    assert!(b.active_piece.blocks.iter().all(|bl| bl.point.x == 1));
}

#[test]
fn points_table() {
    assert_eq!(Board::get_points(0), 0);
    assert_eq!(Board::get_points(1), 10);
    assert_eq!(Board::get_points(2), 25);
    assert_eq!(Board::get_points(3), 40);
    assert_eq!(Board::get_points(4), 55);
    assert_eq!(Board::get_points(5), 0);
}

#[test]
fn last_cell_of_row_clears_it() {
    let mut b = Board::with_piece(10, 20, Piece::spawn(Shape::Square, 10));
    drop_piece(&mut b, cyan([[0, 5], [1, 5], [2, 5], [3, 5]]));
    drop_piece(&mut b, cyan([[4, 5], [5, 5], [6, 5], [7, 5]]));
    drop_piece(&mut b, cyan([[8, 5], [8, 6], [8, 7], [8, 8]]));
    assert_eq!(b.score, 0);
    assert_eq!(b.blocks.len(), 12);
    assert_eq!(b.apply_with(&Event::NewPiece(cyan([[9, 5], [9, 6], [9, 7], [9, 8]])), Shape::Square), Ok(()));
    for _ in 0..11 {
        assert_eq!(b.apply_with(&Event::MoveDown, Shape::Square), Ok(()));
    }
    assert_eq!(b.score, 10);
    assert_eq!(b.blocks.len(), 6);
    for y in 17..20 {
        assert!(has_block(&b, 8, y));
        assert!(has_block(&b, 9, y));
    }
    assert!(!has_block(&b, 8, 16));
    assert!(!has_block(&b, 0, 19));
    assert_eq!(b.active_piece, Piece::spawn(Shape::Square, 10));
    assert_eq!(b.log.last(), Some(&Event::NewPiece(Piece::spawn(Shape::Square, 10))));
}

#[test]
fn two_rows_score_twenty_five_and_shift() {
    let mut b = Board::with_piece(4, 8, Piece::spawn(Shape::Square, 4));
    drop_piece(&mut b, cyan([[0, 0], [1, 0], [0, 1], [1, 1]]));
    drop_piece(&mut b, cyan([[2, 0], [2, 1], [2, 2], [2, 3]]));
    assert_eq!(b.score, 0);
    drop_piece(&mut b, cyan([[3, 0], [3, 1], [3, 2], [3, 3]]));
    assert_eq!(b.score, 25);
    assert!(!b.is_game_over);
    let mut pts: Vec<(i16, i16)> = b.blocks.iter().map(|bl| (bl.point.x, bl.point.y)).collect();
    pts.sort();
    assert_eq!(pts, vec![(2, 6), (2, 7), (3, 6), (3, 7)]);
}

#[test]
fn three_and_four_rows_score() {
    let mut b = Board::with_piece(1, 8, cyan([[0, 0], [0, 1], [0, 2], [0, 3]]));
    assert_eq!(b.apply_with(&Event::MoveAllTheWayDown, Shape::Square), Ok(()));
    assert_eq!(b.score, 55);
    assert!(b.blocks.is_empty());
    assert!(b.is_game_over);
    let mut c = Board::with_piece(1, 8, cyan([[0, 0], [0, 1], [0, 2], [0, 2]]));
    assert_eq!(c.apply_with(&Event::MoveAllTheWayDown, Shape::Square), Ok(()));
    assert_eq!(c.score, 40);
}

#[test]
fn blocked_spawn_ends_game() {
    let mut b = Board::with_piece(10, 4, cyan([[4, 0], [4, 1], [4, 2], [4, 3]]));
    assert_eq!(b.apply_with(&Event::MoveDown, Shape::Square), Ok(()));
    assert!(b.is_game_over);
    assert!(!b.does_piece_fit(&b.active_piece));
    let blocks = b.blocks.clone();
    let active = b.active_piece;
    let log_len = b.log.len();
    assert_eq!(b.apply(&Event::MoveLeft), Err(GameError::GameOver));
    assert_eq!(b.apply_with(&Event::Rotate, Shape::Line), Err(GameError::GameOver));
    assert_eq!(b.blocks, blocks);
    assert_eq!(b.active_piece, active);
    assert_eq!(b.log.len(), log_len);
    assert!(b.is_game_over);
}

#[test]
fn new_game_is_refused() {
    let mut b = Board::with_piece(10, 20, Piece::spawn(Shape::T1, 10));
    assert_eq!(b.apply(&Event::NewGame(10, 20)), Err(GameError::AlreadyStarted));
    assert_eq!(b.log.len(), 2);
    assert!(!b.is_game_over);
}

#[test]
fn try_new_rejects_empty_sizes() {
    assert!(Board::try_new(0, 5).is_none());
    assert!(Board::try_new(5, -1).is_none());
    let b = Board::try_new(6, 5).unwrap();
    assert_eq!((b.width, b.height), (6, 5));
}

#[test]
fn same_events_same_field() {
    let events = [
        Event::MoveLeft,
        Event::Rotate,
        Event::MoveAllTheWayDown,
        Event::MoveRight,
        Event::MoveRight,
        Event::MoveAllTheWayDown,
        Event::MoveDown,
    ];
    let shapes = [Shape::L1, Shape::N2, Shape::Line, Shape::T1];
    let mut a = Board::with_piece(10, 20, Piece::spawn(Shape::N1, 10));
    let mut b = Board::with_piece(10, 20, Piece::spawn(Shape::N1, 10));
    for (i, e) in events.iter().enumerate() {
        let s = shapes[i % shapes.len()];
        assert_eq!(a.apply_with(e, s), b.apply_with(e, s));
    }
    assert_eq!(a.blocks, b.blocks);
    assert_eq!(a.score, b.score);
    assert_eq!(a.is_game_over, b.is_game_over);
    assert_eq!(a.log, b.log);
}

#[test]
fn remove_rows_shifts_by_rows_below() {
    let mut b = Board::with_piece(3, 6, Piece::spawn(Shape::Square, 3));
    b.blocks = vec![
        Block { point: Point { x: 0, y: 1 }, color: Color::Red },
        Block { point: Point { x: 1, y: 3 }, color: Color::Blue },
        Block { point: Point { x: 2, y: 2 }, color: Color::Green },
        Block { point: Point { x: 2, y: 5 }, color: Color::Cyan },
    ];
    b.remove_and_shift_rows_down(&vec![2, 4]);
    let pts: Vec<(i16, i16)> = b.blocks.iter().map(|bl| (bl.point.x, bl.point.y)).collect();
    assert_eq!(pts, vec![(0, 3), (1, 4), (2, 5)]);
}

#[test]
fn keys_map_to_events() {
    assert_eq!(event_for_key(65), Some(Event::Rotate));
    assert_eq!(event_for_key(68), Some(Event::MoveLeft));
    assert_eq!(event_for_key(67), Some(Event::MoveRight));
    assert_eq!(event_for_key(66), Some(Event::MoveDown));
    assert_eq!(event_for_key(32), Some(Event::MoveAllTheWayDown));
    assert_eq!(event_for_key('q' as i32), None);
}

#[test]
fn log_records_landing_and_entering_piece() {
    let mut b = Board::with_piece(10, 20, Piece::spawn(Shape::L2, 10));
    assert_eq!(b.apply_with(&Event::MoveRight, Shape::T1), Ok(()));
    assert_eq!(b.apply_with(&Event::MoveAllTheWayDown, Shape::T1), Ok(()));
    assert_eq!(b.log.len(), 5);
    assert_eq!(b.log[2], Event::MoveRight);
    assert_eq!(b.log[3], Event::MoveAllTheWayDown);
    assert_eq!(b.log[4], Event::NewPiece(Piece::spawn(Shape::T1, 10)));
    assert_eq!(b.blocks.len(), 4);
    assert!(b.blocks.iter().all(|bl| bl.color == Color::Orange));
    assert!(b.blocks.iter().any(|bl| bl.point.y == 19));
}

#[test]
fn replaying_the_log_rebuilds_the_field() {
    let mut b = Board::new(10, 20);
    let events = [
        Event::MoveLeft,
        Event::MoveAllTheWayDown,
        Event::Rotate,
        Event::MoveRight,
        Event::MoveRight,
        Event::MoveAllTheWayDown,
        Event::MoveDown,
        Event::MoveAllTheWayDown,
        Event::Rotate,
        Event::MoveLeft,
        Event::MoveLeft,
        Event::MoveLeft,
        Event::MoveAllTheWayDown,
    ];
    for e in events.iter() {
        if b.is_game_over {
            break;
        }
        assert_eq!(b.apply(e), Ok(()));
    }
    let r = Board::from_log(&b.log).unwrap();
    assert_eq!(r.blocks, b.blocks);
    assert_eq!(r.score, b.score);
    assert_eq!(r.is_game_over, b.is_game_over);
    assert_eq!(r.active_piece, b.active_piece);
    assert_eq!(r.log, b.log);
}

#[test]
fn replaying_a_broken_log_fails() {
    assert!(Board::from_log(&vec![]).is_none());
    assert!(Board::from_log(&vec![Event::NewGame(10, 20)]).is_none());
    let p = Piece::spawn(Shape::Line, 10);
    assert!(Board::from_log(&vec![Event::MoveLeft, Event::NewPiece(p)]).is_none());
    assert!(Board::from_log(&vec![Event::NewGame(0, 20), Event::NewPiece(p)]).is_none());
    let ok = vec![Event::NewGame(10, 20), Event::NewPiece(p)];
    assert!(Board::from_log(&ok).is_some());
    let landed_without_piece = vec![Event::NewGame(10, 20), Event::NewPiece(p), Event::MoveAllTheWayDown];
    assert!(Board::from_log(&landed_without_piece).is_none());
    let again = vec![Event::NewGame(10, 20), Event::NewPiece(p), Event::NewGame(10, 20)];
    assert!(Board::from_log(&again).is_none());
}
