use engine::api::{get_moves_for, new_board_state_for, GetMovesRequest, GetNewBoardStateRequest};
use engine::board::{Board, BoardFlags, Coord, GameMove, MoveType, Square, SquareCondition};
use engine::codec::board_to_fen;
use engine::execute::MoveError;
use engine::movegen::generate_glider_moves;
use engine::pieces::{Bus, Color, Goblin, GoblinState, Monkey, PieceType, Skibidi};

fn empty_board() -> Board {
    Board {
        grid: vec![vec![Square::new(); 8]; 8],
        flags: BoardFlags {
            white_can_castle_kingside: true,
            white_can_castle_queenside: true,
            black_can_castle_kingside: true,
            black_can_castle_queenside: true,
            en_passant_target: None,
        },
    }
}

fn at(file: u8, rank: u8) -> Coord {
    Coord { file, rank }
}

fn to(from: Coord, file: u8, rank: u8) -> GameMove {
    GameMove { from, move_type: MoveType::MoveTo(at(file, rank)) }
}

fn brainrot_count(board: &Board) -> usize {
    board
        .grid
        .iter()
        .flatten()
        .filter(|s| s.conditions.contains(&SquareCondition::Brainrot))
        .count()
}

#[test]
fn held_squares_have_no_moves() {
    let mut board = empty_board();
    board.set_piece_at(&at(1, 1), PieceType::new_knight(Color::Black));
    assert!(!board.get_moves(&at(1, 1)).is_empty());
    board.grid[1][1] = board.grid[1][1].clone().add_square_condition(SquareCondition::Frozen);
    assert_eq!(board.get_moves(&at(1, 1)), vec![]);
    let mut board = empty_board();
    board.grid[4][4] = Square::new()
        .set_piece(PieceType::new_queen(Color::White))
        .add_square_condition(SquareCondition::Brainrot);
    assert_eq!(board.get_moves(&at(4, 4)), vec![]);
}

#[test]
fn phase_shift_raises_to_four_and_brainrot_follows() {
    let mut board = empty_board();
    let sk = at(3, 3);
    board.set_piece_at(&sk, PieceType::Skibidi(Skibidi::new(Color::White)));
    board.set_piece_at(&at(7, 7), PieceType::new_rook(Color::White));
    let expected = [(2u8, 8usize), (3, 24), (4, 48), (4, 48)];
    for (phase, count) in expected {
        let m = GameMove { from: sk, move_type: MoveType::PhaseShift };
        assert_eq!(board.make_move(m), Ok(()));
        assert_eq!(
            board.grid[3][3].piece,
            Some(PieceType::Skibidi(Skibidi { color: Color::White, phase }))
        );
        assert_eq!(brainrot_count(&board), count);
        assert!(!board.grid[3][3].conditions.contains(&SquareCondition::Brainrot));
    }
    // a move elsewhere recomputes the same layer
    assert_eq!(board.make_move(to(at(7, 7), 7, 6)), Ok(()));
    assert_eq!(brainrot_count(&board), 48);
    assert!(board.grid[0][0].conditions.contains(&SquareCondition::Brainrot));
    assert!(!board.grid[7][7].conditions.contains(&SquareCondition::Brainrot));
    // moving the Skibidi resets it to phase 1, which radiates nothing
    assert_eq!(board.make_move(to(sk, 4, 3)), Ok(()));
    assert_eq!(
        board.grid[3][4].piece,
        Some(PieceType::Skibidi(Skibidi { color: Color::White, phase: 1 }))
    );
    assert_eq!(brainrot_count(&board), 0);
}

#[test]
fn monkey_chain_jump() {
    let mut board = empty_board();
    let m = at(0, 0);
    board.set_piece_at(&m, PieceType::Monkey(Monkey { color: Color::White }));
    board.set_piece_at(&at(1, 0), PieceType::new_pawn(Color::Black));
    board.set_piece_at(&at(3, 0), PieceType::new_pawn(Color::Black));
    let moves = board.get_moves(&m);
    assert_eq!(moves, vec![to(m, 1, 1), to(m, 0, 1), to(m, 2, 0), to(m, 4, 0)]);
    assert_eq!(moves.iter().filter(|g| **g == to(m, 2, 0)).count(), 1);
}

#[test]
fn monkey_captures_at_end_of_jump() {
    let mut board = empty_board();
    let m = at(0, 0);
    board.set_piece_at(&m, PieceType::Monkey(Monkey { color: Color::White }));
    board.set_piece_at(&at(1, 0), PieceType::new_pawn(Color::White));
    board.set_piece_at(&at(2, 0), PieceType::new_pawn(Color::Black));
    assert_eq!(board.get_moves(&m), vec![to(m, 1, 1), to(m, 0, 1), to(m, 2, 0)]);
}

#[test]
fn bus_passenger_moves_like_a_knight() {
    let mut board = empty_board();
    let c = at(3, 3);
    let mut bus = Bus::new(Color::White);
    bus.pieces.push(PieceType::new_knight(Color::White));
    board.set_piece_at(&c, PieceType::Bus(bus));
    let moves = board.get_moves(&c);

    let mut alone = empty_board();
    alone.set_piece_at(&c, PieceType::new_knight(Color::White));
    let knight: Vec<GameMove> = alone
        .get_moves(&c)
        .into_iter()
        .map(|m| GameMove {
            from: c,
            move_type: MoveType::PieceInCarrier { piece_index: 0, move_type: Box::new(m.move_type) },
        })
        .collect();
    assert_eq!(knight.len(), 8);
    let own: Vec<GameMove> = moves.iter().filter(|m| matches!(m.move_type, MoveType::MoveTo(_))).cloned().collect();
    assert_eq!(own.len(), 8);
    let carried: Vec<GameMove> = moves.into_iter().filter(|m| matches!(m.move_type, MoveType::PieceInCarrier { .. })).collect();
    assert_eq!(carried, knight);
}

#[test]
fn boarding_and_leaving_a_bus() {
    let mut board = empty_board();
    board.set_piece_at(&at(0, 0), PieceType::new_rook(Color::White));
    board.set_piece_at(&at(0, 3), PieceType::Bus(Bus::new(Color::White)));
    let boarding = GameMove { from: at(0, 0), move_type: MoveType::MoveIntoCarrier(at(0, 3)) };
    assert!(board.get_moves(&at(0, 0)).contains(&boarding));
    assert_eq!(board.make_move(boarding), Ok(()));
    assert_eq!(board.grid[0][0].piece, None);
    assert_eq!(board_to_fen(&board), "8/8/8/(P=BUS(P=(R)))7/8/8/8/8");
    let leaving = GameMove {
        from: at(0, 3),
        move_type: MoveType::PieceInCarrier { piece_index: 0, move_type: Box::new(MoveType::MoveTo(at(0, 0))) },
    };
    assert_eq!(board.make_move(leaving), Ok(()));
    assert_eq!(board.grid[0][0].piece, Some(PieceType::new_rook(Color::White)));
    assert_eq!(board.grid[3][0].piece, Some(PieceType::Bus(Bus::new(Color::White))));
}

#[test]
fn goblin_kidnaps_and_drops_off() {
    let mut board = empty_board();
    board.set_piece_at(&at(0, 3), PieceType::Goblin(Goblin::new(Color::White, at(0, 4))));
    board.set_piece_at(&at(0, 5), PieceType::new_rook(Color::Black));
    assert_eq!(board.make_move(to(at(0, 3), 0, 5)), Ok(()));
    assert_eq!(
        board.grid[5][0].piece,
        Some(PieceType::Goblin(Goblin {
            color: Color::White,
            state: GoblinState::Kidnapping { piece: Box::new(PieceType::new_rook(Color::Black)) },
            home_square: at(0, 4),
        }))
    );
    // kidnapping goblins only step to empty squares
    assert_eq!(board.get_moves(&at(0, 5)).len(), 5);
    assert_eq!(board.make_move(to(at(0, 5), 0, 4)), Ok(()));
    assert_eq!(board.grid[4][0].piece, Some(PieceType::new_rook(Color::White)));
    assert_eq!(board.grid[5][0].piece, None);
}

#[test]
fn illegal_move_leaves_board_unchanged() {
    let mut board = empty_board();
    board.set_piece_at(&at(0, 0), PieceType::new_rook(Color::White));
    let before = board.clone();
    let bad = to(at(0, 0), 1, 1);
    assert_eq!(board.make_move(bad.clone()), Err(MoveError::IllegalMove(bad)));
    assert_eq!(board, before);
    let nothing = to(at(5, 5), 5, 6);
    assert_eq!(board.make_move(nothing.clone()), Err(MoveError::IllegalMove(nothing)));
    assert_eq!(board, before);
}

#[test]
fn slider_and_pawn_moves() {
    let mut board = empty_board();
    board.set_piece_at(&at(0, 0), PieceType::new_rook(Color::White));
    assert_eq!(board.get_moves(&at(0, 0)).len(), 14);
    board.set_piece_at(&at(0, 2), PieceType::new_pawn(Color::White));
    assert_eq!(
        board.get_moves(&at(0, 0)),
        vec![to(at(0, 0), 1, 0), to(at(0, 0), 2, 0), to(at(0, 0), 3, 0), to(at(0, 0), 4, 0),
             to(at(0, 0), 5, 0), to(at(0, 0), 6, 0), to(at(0, 0), 7, 0), to(at(0, 0), 0, 1)]
    );
    let king = generate_glider_moves(&board, &at(4, 4), &[(1, 0), (0, 1)], 1);
    assert_eq!(king, vec![to(at(4, 4), 5, 4), to(at(4, 4), 4, 5)]);
    board.set_piece_at(&at(4, 6), PieceType::new_pawn(Color::White));
    board.set_piece_at(&at(5, 5), PieceType::new_knight(Color::Black));
    assert_eq!(
        board.get_moves(&at(4, 6)),
        vec![to(at(4, 6), 4, 5), to(at(4, 6), 4, 4), to(at(4, 6), 5, 5)]
    );
}

#[test]
fn requests_through_the_notation() {
    let r = get_moves_for(&GetMovesRequest { board_fen: "R7/8/8/8/8/8/8/7k".to_string(), from: at(0, 0) });
    assert_eq!(r.moves.len(), 14);
    let r = new_board_state_for(GetNewBoardStateRequest {
        board_fen: "R7/8/8/8/8/8/8/7k".to_string(),
        game_move: to(at(0, 0), 0, 7),
    });
    assert_eq!(r.new_board_fen, "8/8/8/8/8/8/8/R6k");
    let r = new_board_state_for(GetNewBoardStateRequest {
        board_fen: "R7/8/8/8/8/8/8/7k".to_string(),
        game_move: to(at(0, 0), 1, 1),
    });
    assert_eq!(r.new_board_fen, "R7/8/8/8/8/8/8/7k");
}

#[test]
fn carried_skibidi_cannot_phase_shift_from_inside() {
    let mut board = empty_board();
    let c = at(2, 2);
    let mut bus = Bus::new(Color::Black);
    bus.pieces.push(PieceType::Skibidi(Skibidi::new(Color::Black)));
    board.set_piece_at(&c, PieceType::Bus(bus));
    let shift = GameMove {
        from: c,
        move_type: MoveType::PieceInCarrier { piece_index: 0, move_type: Box::new(MoveType::PhaseShift) },
    };
    assert!(board.get_moves(&c).contains(&shift));
    let before = board.clone();
    assert_eq!(board.make_move(shift), Err(MoveError::UnsupportedMoveForPiece));
    assert_eq!(board, before);
}
