use engine::board::{Board, BoardFlags, Coord, Square, SquareCondition, SquareType};
use engine::pieces::{Color, PieceType};

fn empty_board() -> Board {
    Board {
        grid: vec![vec![Square::new(); 8]; 8],
        flags: BoardFlags {
            white_can_castle_kingside: true,
            white_can_castle_queenside: true,
            black_can_castle_kingside: true,
            black_can_castle_queenside: true,
            en_passant_target: None,
        },
    }
}

#[test]
fn squares_and_colors() {
    let sq = Square::new().set_piece(PieceType::new_bishop(Color::Black));
    assert!(sq.has_piece());
    assert!(sq.has_piece_of_color(Color::Black));
    assert!(!sq.has_piece_of_color(Color::White));
    assert!(!sq.clone().remove_piece().has_piece());
    assert_eq!(Color::White.opposite(), Color::Black);
    assert!(PieceType::new_pawn(Color::White).blocks_path());
    assert_eq!(SquareType::Turret.as_str(), "TURRET");
    assert_eq!(SquareCondition::Brainrot.as_str(), "BRAINROT");
}

#[test]
fn board_access() {
    let mut board = empty_board();
    board.set_piece_at(&Coord { file: 2, rank: 5 }, PieceType::new_queen(Color::White));
    board.set_piece_at(&Coord { file: 6, rank: 1 }, PieceType::new_king(Color::Black));
    board.set_piece_at(&Coord { file: 9, rank: 1 }, PieceType::new_king(Color::Black));
    assert_eq!(
        board.all_pieces(),
        vec![
            (Coord { file: 6, rank: 1 }, PieceType::new_king(Color::Black)),
            (Coord { file: 2, rank: 5 }, PieceType::new_queen(Color::White)),
        ]
    );
    assert!(board.square_is_empty(&Coord { file: 0, rank: 0 }));
    assert!(!board.square_is_empty(&Coord { file: 2, rank: 5 }));
    assert!(!board.square_is_empty(&Coord { file: 8, rank: 0 }));
    assert!(board.in_bounds(7, 7));
    assert!(!board.in_bounds(-1, 3));
    assert!(board.get_square_at(&Coord { file: 3, rank: 8 }).is_none());
    if let Some(sq) = board.get_square_mut(&Coord { file: 0, rank: 0 }) {
        sq.square_type = SquareType::Vent;
    }
    assert_eq!(board.grid[0][0].square_type, SquareType::Vent);
    assert!(!board.square_is_empty(&Coord { file: 0, rank: 0 }));
    assert!(board.get_square_mut(&Coord { file: 0, rank: 9 }).is_none());
}
