//! The two requests the service answers, over the notation.

use vstd::prelude::*;

use crate::board::{Coord, GameMove};
use crate::codec::{board_sym, board_to_fen};
use crate::decode::{decode, fen_to_board};
use crate::execute::{apply_move, effects, recalc};
use crate::movegen::board_moves;

verus! {

/// Ask for the legal moves from one square of a board given in the notation.
pub struct GetMovesRequest {
    pub board_fen: String,
    pub from: Coord,
}

pub struct GetMovesResponse {
    pub moves: Vec<GameMove>,
}

/// Ask for the board that a move leaves.
pub struct GetNewBoardStateRequest {
    pub board_fen: String,
    pub game_move: GameMove,
}

pub struct GetNewBoardStateResponse {
    pub new_board_fen: String,
}

/// The board text after `m`: the moved board when the move is legal and can be made,
/// else the board as given.
pub open spec fn board_after(s: Seq<char>, m: GameMove) -> Seq<char> {
    let b = decode(s);
    if board_moves(b, m.from).contains(m) {
        match apply_move(b, m) {
            Ok(b1) => board_sym(recalc(effects(b, b1, m))),
            Err(_) => board_sym(b),
        }
    } else {
        board_sym(b)
    }
}

/// Answers a moves request: the legal moves from `from` on the decoded board.
pub fn get_moves_for(req: &GetMovesRequest) -> (r: GetMovesResponse)
    ensures
        r.moves@ == board_moves(decode(req.board_fen@), req.from),
{
    let board = fen_to_board(req.board_fen.as_str());
    let moves = board.get_moves(&req.from);
    GetMovesResponse { moves }
}

/// Answers a new-state request: decodes the board, makes the move if it is legal, and
/// writes the board back in the notation.
pub fn new_board_state_for(req: GetNewBoardStateRequest) -> (r: GetNewBoardStateResponse)
    ensures
        r.new_board_fen@ == board_after(req.board_fen@, req.game_move),
{
    let mut board = fen_to_board(req.board_fen.as_str());
    let _ = board.make_move(req.game_move);
    let new_board_fen = board_to_fen(&board);
    GetNewBoardStateResponse { new_board_fen }
}

} // verus!
