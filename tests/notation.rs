use engine::board::{Board, BoardFlags, Square, SquareCondition, SquareType};
use engine::codec::{board_to_fen, square_to_fen};
use engine::decode::{fen_to_board, fen_to_square, find_matching_paren, split_top_level};
use engine::pieces::{Bus, Color, Goblin, GoblinState, PieceKind, PieceType, Skibidi};
use engine::board::Coord;

fn empty_board() -> Board {
    Board {
        grid: vec![vec![Square::new(); 8]; 8],
        flags: BoardFlags {
            white_can_castle_kingside: true,
            white_can_castle_queenside: true,
            black_can_castle_kingside: true,
            black_can_castle_queenside: true,
            en_passant_target: None,
        },
    }
}

#[test]
fn test_empty_board_fen() {
    let board = empty_board();

    let fen = board_to_fen(&board);
    assert_eq!(fen, "8/8/8/8/8/8/8/8");

    let board2 = fen_to_board(&fen);
    assert_eq!(board2, board);
}

#[test]
fn test_standard_pieces_fen() {
    let mut board = empty_board();

    board.grid[0][0] = Square::new().set_piece(PieceKind::new_rook(Color::White).into());
    board.grid[7][7] = Square::new().set_piece(PieceKind::new_king(Color::Black).into());

    let fen = board_to_fen(&board);
    assert_eq!(fen, "R7/8/8/8/8/8/8/7k");

    let board2 = fen_to_board(&fen);
    assert_eq!(board2, board);
}

#[test]
fn test_extended_square_fen() {
    let mut board = empty_board();

    board.grid[0][0] = Square::new()
        .set_piece(PieceKind::new_rook(Color::White).into())
        .set_square_type(SquareType::Vent);

    let fen = board_to_fen(&board);
    assert_eq!(fen, "(P=R,T=VENT)7/8/8/8/8/8/8/8");

    let board2 = fen_to_board(&fen);
    assert_eq!(board2, board);
}

#[test]
fn test_square_with_conditions_fen() {
    let mut board = empty_board();

    board.grid[1][1] = Square::new()
        .set_piece(PieceKind::new_knight(Color::Black).into())
        .add_square_condition(SquareCondition::Frozen);

    let fen = board_to_fen(&board);
    assert_eq!(fen, "8/1(P=n,C=FROZEN)6/8/8/8/8/8/8");

    let board2 = fen_to_board(&fen);
    assert_eq!(board2, board);
}

#[test]
fn test_square_with_conditions_and_types_fen() {
    let mut board = empty_board();

    board.grid[1][1] = Square::new()
        .set_piece(PieceKind::new_knight(Color::Black).into())
        .add_square_condition(SquareCondition::Frozen)
        .set_square_type(SquareType::Vent);

    let fen = board_to_fen(&board);
    assert_eq!(fen, "8/1(P=n,T=VENT,C=FROZEN)6/8/8/8/8/8/8");

    let board2 = fen_to_board(&fen);
    assert_eq!(board2, board);
}

#[test]
fn test_fen_roundtrip() {
    let mut board = empty_board();

    board.grid[0][0] = Square::new().set_piece(PieceKind::new_rook(Color::White).into());
    board.grid[0][1] = Square::new()
        .set_piece(PieceKind::new_knight(Color::Black).into())
        .set_square_type(SquareType::Turret)
        .add_square_condition(SquareCondition::Frozen);

    let fen = board_to_fen(&board);
    let board2 = fen_to_board(&fen);
    assert_eq!(board2, board);
}

#[test]
fn stateful_pieces_round_trip() {
    let mut board = empty_board();
    let mut bus = Bus::new(Color::White);
    bus.pieces.push(PieceType::new_knight(Color::White));
    bus.pieces.push(PieceType::Skibidi(Skibidi { color: Color::Black, phase: 3 }));
    board.grid[2][3] = Square::new().set_piece(PieceType::Bus(bus));
    let goblin = Goblin {
        color: Color::Black,
        state: GoblinState::Kidnapping {
            piece: Box::new(PieceType::Goblin(Goblin::new(Color::White, Coord { file: 0, rank: 7 }))),
        },
        home_square: Coord { file: 7, rank: 7 },
    };
    board.grid[5][5] = Square::new()
        .set_piece(PieceType::Goblin(goblin))
        .set_square_type(SquareType::Vent)
        .add_square_condition(SquareCondition::Brainrot);
    board.grid[6][0] = Square::new().set_piece(PieceType::Skibidi(Skibidi::new(Color::White)));
    board.grid[6][1] = Square::new().set_piece(PieceType::Monkey(engine::pieces::Monkey { color: Color::Black }));

    let fen = board_to_fen(&board);
    assert_eq!(
        fen,
        "8/8/3(P=BUS(P=(N,s(PHASE=3))))4/8/8/5(P=g(H=7-7,P=G(H=0-7)),T=VENT,C=BRAINROT)2/Sm6/8"
    );
    assert_eq!(fen_to_board(&fen), board);
}

#[test]
fn square_tokens() {
    assert_eq!(square_to_fen(&Square::new()), "()");
    let sq = Square::new().set_piece(PieceType::Skibidi(Skibidi { color: Color::White, phase: 2 }));
    assert_eq!(square_to_fen(&sq), "(P=S(PHASE=2))");
    assert_eq!(fen_to_square("(P=S(PHASE=2))"), sq);
    let unknown = fen_to_square("(P=Z,T=LAVA,C=WET,X=1)");
    assert_eq!(unknown, Square::new());
    assert_eq!(fen_to_square("()"), Square::new());
}

#[test]
fn split_and_match_brackets() {
    assert_eq!(split_top_level("a, b(c, d), e"), vec!["a", "b(c, d)", "e"]);
    assert_eq!(split_top_level(""), Vec::<String>::new());
    assert_eq!(find_matching_paren("G(H=0-7,P=g(H=0-0))", 1), Some(18));
    assert_eq!(find_matching_paren("foo(bar(baz),qux)", 3), Some(16));
    assert_eq!(find_matching_paren("(abc(def)", 0), None);
}

#[test]
fn piece_symbols() {
    assert_eq!(PieceType::new_queen(Color::Black).symbol(), "q");
    assert_eq!(PieceKind::new_bishop(Color::White).symbol(), "B");
    assert_eq!(PieceKind::symbol_to_piece('k'), Some(PieceKind::new_king(Color::Black)));
    assert_eq!(PieceKind::symbol_to_piece('x'), None);
    assert_eq!(PieceType::symbol_to_piece("BUS"), Some(PieceType::Bus(Bus::new(Color::White))));
    assert_eq!(PieceType::symbol_to_piece("zz"), None);
    assert_eq!(
        Goblin::from_symbol("g(H=3-4)"),
        Some(PieceType::Goblin(Goblin::new(Color::Black, Coord { file: 3, rank: 4 })))
    );
    assert_eq!(
        Skibidi::from_symbol("s(PHASE=4)"),
        Some(PieceType::Skibidi(Skibidi { color: Color::Black, phase: 4 }))
    );
    assert_eq!(Skibidi::from_symbol("S"), Some(PieceType::Skibidi(Skibidi::new(Color::White))));
    assert_eq!(Bus::from_symbol("bus(P=(p,x,R))").map(|p| p.symbol()), Some("bus(P=(p,R))".to_string()));
}
