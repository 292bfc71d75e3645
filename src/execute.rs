//! Making moves: the move proper, the landed piece's reaction, and Brainrot.

use vstd::prelude::*;

use crate::board::{
    row_model, Board, BoardModel, Coord, GameMove, MoveType, Square,
    SquareCondition, SquareModel,
};
use crate::movegen::board_moves;
use crate::pieces::{lemma_bus_model, models_of, piece_model, Bus, Goblin, GoblinState, PieceModel, PieceType, Skibidi};

verus! {

broadcast use vstd::std_specs::vec::group_vec_axioms, vstd::seq::group_seq_axioms;

/// Why a move could not be made.
#[derive(PartialEq, Debug)]
pub enum MoveError {
    /// The move is not among the legal moves from its origin.
    IllegalMove(GameMove),
    /// The move ends on a square that is not on the board.
    MissingSquare(Coord),
    /// No piece stands on the move's origin.
    MissingPiece(Coord),
    /// The piece cannot make this kind of move.
    UnsupportedMoveForPiece,
}

/// One more phase, up to the fourth.
pub open spec fn raised_phase(p: u8) -> u8 {
    if p < 4 {
        (p + 1) as u8
    } else {
        p
    }
}

pub open spec fn board_piece(b: BoardModel, c: Coord) -> Option<PieceModel> {
    b.piece_at(c.file as int, c.rank as int)
}

pub open spec fn place(b: BoardModel, c: Coord, p: Option<PieceModel>) -> BoardModel {
    b.with_piece(c.file as int, c.rank as int, p)
}

/// Boards `q` onto the carrier standing at `t`.
pub open spec fn board_into(b: BoardModel, t: Coord, q: PieceModel) -> Result<BoardModel, MoveError> {
    if !b.on_board(t.file as int, t.rank as int) {
        Err(MoveError::MissingSquare(t))
    } else {
        match board_piece(b, t) {
            Some(PieceModel::Bus { color, passengers }) => Ok(
                place(b, t, Some(PieceModel::Bus { color, passengers: passengers.push(q) })),
            ),
            _ => Err(MoveError::UnsupportedMoveForPiece),
        }
    }
}

/// Puts `q` on `t`, replacing whatever stood there.
pub open spec fn land(b: BoardModel, t: Coord, q: PieceModel) -> Result<BoardModel, MoveError> {
    if !b.on_board(t.file as int, t.rank as int) {
        Err(MoveError::MissingSquare(t))
    } else {
        Ok(place(b, t, Some(q)))
    }
}

/// The move proper, before its effects: the board it leaves, or why it cannot be made.
pub open spec fn apply_move(b: BoardModel, m: GameMove) -> Result<BoardModel, MoveError> {
    match board_piece(b, m.from) {
        None => Err(MoveError::MissingPiece(m.from)),
        Some(p) => match m.move_type {
            MoveType::MoveTo(t) => land(place(b, m.from, None), t, p),
            MoveType::PhaseShift => match p {
                PieceModel::Skibidi { color, phase } => Ok(
                    place(
                        b,
                        m.from,
                        Some(PieceModel::Skibidi { color, phase: raised_phase(phase) }),
                    ),
                ),
                _ => Err(MoveError::UnsupportedMoveForPiece),
            },
            MoveType::MoveIntoCarrier(t) => if t == m.from {
                Err(MoveError::UnsupportedMoveForPiece)
            } else {
                board_into(place(b, m.from, None), t, p)
            },
            MoveType::PieceInCarrier { piece_index, move_type } => match p {
                PieceModel::Bus { color, passengers } => {
                    if piece_index < passengers.len() {
                        let q = passengers[piece_index as int];
                        let rest = passengers.remove(piece_index as int);
                        let b1 = place(
                            b,
                            m.from,
                            Some(PieceModel::Bus { color, passengers: rest }),
                        );
                        match *move_type {
                            MoveType::MoveTo(t) => if t == m.from {
                                Err(MoveError::UnsupportedMoveForPiece)
                            } else {
                                land(b1, t, q)
                            },
                            MoveType::MoveIntoCarrier(t) => if t == m.from {
                                Err(MoveError::UnsupportedMoveForPiece)
                            } else {
                                board_into(b1, t, q)
                            },
                            _ => Err(MoveError::UnsupportedMoveForPiece),
                        }
                    } else {
                        Err(MoveError::UnsupportedMoveForPiece)
                    }
                },
                _ => Err(MoveError::UnsupportedMoveForPiece),
            },
        },
    }
}

/// The square a move puts a piece down on, if any.
pub open spec fn landing(mt: MoveType) -> Option<Coord> {
    match mt {
        MoveType::MoveTo(t) => Some(t),
        MoveType::PieceInCarrier { move_type, .. } => match *move_type {
            MoveType::MoveTo(t) => Some(t),
            _ => None,
        },
        _ => None,
    }
}

/// The reaction of piece `p`, landed on `t`: a Skibidi falls back to phase 1; a free
/// Goblin that took an opposing piece carries it off; a kidnapping Goblin at home
/// leaves its cargo, now of the Goblin's color, on that square.
pub open spec fn piece_hook(before: BoardModel, after: BoardModel, t: Coord, p: PieceModel) -> BoardModel {
    match p {
        PieceModel::Skibidi { color, .. } => place(
            after,
            t,
            Some(PieceModel::Skibidi { color, phase: 1 }),
        ),
        PieceModel::Goblin { color, cargo, home } => match cargo {
            None => match board_piece(before, t) {
                Some(c) => if c.color() != color {
                    place(
                        after,
                        t,
                        Some(PieceModel::Goblin { color, cargo: Some(Box::new(c)), home }),
                    )
                } else {
                    after
                },
                None => after,
            },
            Some(c) => if t == home {
                place(after, t, Some((*c).with_color(color)))
            } else {
                after
            },
        },
        _ => after,
    }
}

/// The reaction of whatever piece stands on `t` after the move.
pub open spec fn hook(before: BoardModel, after: BoardModel, t: Coord) -> BoardModel {
    match board_piece(after, t) {
        Some(p) => piece_hook(before, after, t, p),
        None => after,
    }
}

/// The reaction of `p` to the move `m`, if `m` put a piece down.
pub open spec fn piece_effects(before: BoardModel, after: BoardModel, m: GameMove, p: PieceModel) -> BoardModel {
    match landing(m.move_type) {
        Some(t) => piece_hook(before, after, t, p),
        None => after,
    }
}

pub open spec fn effects(before: BoardModel, after: BoardModel, m: GameMove) -> BoardModel {
    match landing(m.move_type) {
        Some(t) => hook(before, after, t),
        None => after,
    }
}

/// How far a Skibidi's Brainrot reaches in its phase: none in phase 1.
pub open spec fn rot_radius(phase: u8) -> int {
    if 2 <= phase <= 4 {
        phase - 1
    } else {
        0
    }
}

/// The Skibidi on (sf, sr) covers the other square (f, r) with Brainrot.
pub open spec fn radiates(b: BoardModel, sf: int, sr: int, f: int, r: int) -> bool {
    &&& b.on_board(sf, sr)
    &&& b.sq(sf, sr).piece matches Some(PieceModel::Skibidi { phase, .. })
    &&& (sf != f || sr != r)
    &&& -rot_radius(b.sq(sf, sr).piece->0->Skibidi_phase) <= f - sf <= rot_radius(
        b.sq(sf, sr).piece->0->Skibidi_phase,
    )
    &&& -rot_radius(b.sq(sf, sr).piece->0->Skibidi_phase) <= r - sr <= rot_radius(
        b.sq(sf, sr).piece->0->Skibidi_phase,
    )
}

pub open spec fn covered(b: BoardModel, f: int, r: int) -> bool {
    b.on_board(f, r) && exists|sf: int, sr: int| #[trigger] radiates(b, sf, sr, f, r)
}

/// The conditions without Brainrot, in order.
pub open spec fn strip_rot(s: Seq<SquareCondition>) -> Seq<SquareCondition>
    decreases s.len(),
{
    if s.len() == 0 {
        seq![]
    } else {
        strip_rot(s.drop_last()) + if s.last() == SquareCondition::Brainrot {
            seq![]
        } else {
            seq![s.last()]
        }
    }
}

pub open spec fn rot_square(b: BoardModel, f: int, r: int) -> SquareModel {
    let s = b.grid[r][f];
    SquareModel {
        conditions: strip_rot(s.conditions) + if covered(b, f, r) {
            seq![SquareCondition::Brainrot]
        } else {
            seq![]
        },
        ..s
    }
}

/// Brainrot recomputed from scratch: every square loses it, then it is put once on
/// each square that some Skibidi covers.
pub open spec fn recalc(b: BoardModel) -> BoardModel {
    BoardModel {
        grid: Seq::new(
            b.grid.len(),
            |r: int| Seq::new(b.grid[r].len(), |f: int| rot_square(b, f, r)),
        ),
        flags: b.flags,
    }
}

/// Placing a piece on one square leaves the shape of the board, and every other
/// square's occupant, as they were.
pub proof fn lemma_place_frame(b: BoardModel, c: Coord, p: Option<PieceModel>, t: Coord)
    ensures
        place(b, c, p).on_board(t.file as int, t.rank as int) == b.on_board(
            t.file as int,
            t.rank as int,
        ),
        t != c ==> board_piece(place(b, c, p), t) == board_piece(b, t),
        b.on_board(c.file as int, c.rank as int) ==> board_piece(place(b, c, p), c) == p,
{
    let b2 = place(b, c, p);
    if b.on_board(c.file as int, c.rank as int) {
        assert(b2.grid.len() == b.grid.len());
        if 0 <= t.rank < b.grid.len() {
            if t.rank != c.rank {
                assert(b2.grid[t.rank as int] == b.grid[t.rank as int]);
            } else {
                assert(b2.grid[t.rank as int].len() == b.grid[t.rank as int].len());
            }
        }
    }
}

fn rot_conditions(s: &Square, covered_here: bool) -> (r: Vec<SquareCondition>)
    ensures
        r@ == strip_rot(s.conditions@) + if covered_here {
            seq![SquareCondition::Brainrot]
        } else {
            seq![]
        },
{
    let mut out: Vec<SquareCondition> = Vec::new();
    let mut i: usize = 0;
    while i < s.conditions.len()
        invariant
            i <= s.conditions@.len(),
            out@ == strip_rot(s.conditions@.take(i as int)),
        decreases s.conditions@.len() - i,
    {
        let c = s.conditions[i];
        if c != SquareCondition::Brainrot {
            out.push(c);
        }
        proof {
            assert(s.conditions@.take(i + 1).drop_last() =~= s.conditions@.take(i as int));
        }
        i += 1;
        assert(out@ =~= strip_rot(s.conditions@.take(i as int)));
    }
    assert(s.conditions@.take(s.conditions@.len() as int) =~= s.conditions@);
    if covered_here {
        out.push(SquareCondition::Brainrot);
    } else {
        assert(out@ =~= out@ + Seq::<SquareCondition>::empty());
    }
    out
}

fn radiates_exec(board: &Board, sf: usize, sr: usize, f: usize, r: usize) -> (res: bool)
    requires
        sf < 8,
        sr < 8,
        f < 8,
        r < 8,
    ensures
        res == radiates(board@, sf as int, sr as int, f as int, r as int),
{
    if !board.in_bounds(sf as isize, sr as isize) || (sf == f && sr == r) {
        return false;
    }
    match &board.grid[sr][sf].piece {
        Some(PieceType::Skibidi(s)) => {
            let rad: usize = if 2 <= s.phase && s.phase <= 4 {
                (s.phase - 1) as usize
            } else {
                0
            };
            sf <= f + rad && f <= sf + rad && sr <= r + rad && r <= sr + rad
        },
        _ => false,
    }
}

fn covered_exec(board: &Board, f: usize, r: usize) -> (res: bool)
    requires
        f < 8,
        r < 8,
    ensures
        res == covered(board@, f as int, r as int),
{
    if !board.in_bounds(f as isize, r as isize) {
        return false;
    }
    let mut sr: usize = 0;
    while sr < 8
        invariant
            board@.on_board(f as int, r as int),
            sr <= 8,
            f < 8,
            r < 8,
            forall|sf2: int, sr2: int|
                0 <= sr2 < sr ==> !#[trigger] radiates(board@, sf2, sr2, f as int, r as int),
        decreases 8 - sr,
    {
        let mut sf: usize = 0;
        while sf < 8
            invariant
                board@.on_board(f as int, r as int),
                sf <= 8,
                sr < 8,
                f < 8,
                r < 8,
                forall|sf2: int, sr2: int|
                    0 <= sr2 < sr ==> !#[trigger] radiates(board@, sf2, sr2, f as int, r as int),
                forall|sf2: int|
                    0 <= sf2 < sf ==> !#[trigger] radiates(board@, sf2, sr as int, f as int, r as int),
            decreases 8 - sf,
        {
            if radiates_exec(board, sf, sr, f, r) {
                assert(radiates(board@, sf as int, sr as int, f as int, r as int));
                return true;
            }
            sf += 1;
        }
        assert forall|sf2: int, sr2: int| 0 <= sr2 < sr + 1 implies !#[trigger] radiates(
            board@,
            sf2,
            sr2,
            f as int,
            r as int,
        ) by {
            if sr2 == sr && !(0 <= sf2 < 8) {
                assert(!board@.on_board(sf2, sr2));
            }
        }
        sr += 1;
    }
    assert forall|sf2: int, sr2: int| !#[trigger] radiates(board@, sf2, sr2, f as int, r as int) by {
        if !(0 <= sr2 < 8) {
            assert(!board@.on_board(sf2, sr2));
        }
    }
    false
}

impl Board {
    /// Recomputes the Brainrot layer from scratch: removed everywhere, then put on every
    /// square within a Skibidi's radius (its own square excluded).
    pub fn recalc_brainrot(&mut self)
        ensures
            final(self)@ == recalc(old(self)@),
    {
        let ghost b = self@;
        let mut grid: Vec<Vec<Square>> = Vec::new();
        let mut r: usize = 0;
        while r < self.grid.len()
            invariant
                b == self@,
                r <= self.grid@.len(),
                grid@.len() == r,
                forall|k: int|
                    0 <= k < r ==> row_model(#[trigger] grid@[k]@) == recalc(b).grid[k],
            decreases self.grid@.len() - r,
        {
            let row = &self.grid[r];
            let mut new_row: Vec<Square> = Vec::new();
            let mut f: usize = 0;
            while f < row.len()
                invariant
                    b == self@,
                    r < self.grid@.len(),
                    row == self.grid@[r as int],
                    f <= row@.len(),
                    new_row@.len() == f,
                    forall|k: int|
                        0 <= k < f ==> (#[trigger] new_row@[k])@ == rot_square(b, k, r as int),
                decreases row@.len() - f,
            {
                let sq = &row[f];
                let cov = if f < 8 && r < 8 {
                    covered_exec(self, f, r)
                } else {
                    false
                };
                let conditions = rot_conditions(sq, cov);
                let piece = match &sq.piece {
                    Some(p) => Some(p.duplicate()),
                    None => None,
                };
                new_row.push(Square { piece, square_type: sq.square_type, conditions });
                f += 1;
            }
            assert(row_model(new_row@) =~= recalc(b).grid[r as int]);
            grid.push(new_row);
            r += 1;
        }
        self.grid = grid;
        assert(self@.grid =~= recalc(b).grid);
    }

    /// The move proper: moves the piece, raises a phase, boards a carrier or lets a
    /// passenger out. Nothing changes when it fails.
    fn apply_move(&mut self, m: &GameMove) -> (r: Result<(), MoveError>)
        ensures
            match apply_move(old(self)@, *m) {
                Ok(b1) => r is Ok && final(self)@ == b1,
                Err(e) => r == Err::<(), MoveError>(e) && *final(self) == *old(self),
            },
    {
        let from = m.from;
        proof {
            match &m.move_type {
                MoveType::MoveTo(t) => lemma_place_frame(old(self)@, from, None, *t),
                MoveType::PieceInCarrier { move_type, .. } => match &**move_type {
                    MoveType::MoveTo(t) => {
                        lemma_place_frame(old(self)@, from, None, *t);
                    },
                    MoveType::MoveIntoCarrier(t) => {
                        lemma_place_frame(old(self)@, from, None, *t);
                    },
                    _ => {},
                },
                _ => {},
            }
        }
        let p = match self.get_square_at(&from) {
            None => {
                return Err(MoveError::MissingPiece(from));
            },
            Some(sq) => match &sq.piece {
                None => {
                    return Err(MoveError::MissingPiece(from));
                },
                Some(p) => p.duplicate(),
            },
        };
        match &m.move_type {
            MoveType::MoveTo(t) => {
                if self.get_square_at(t).is_none() {
                    return Err(MoveError::MissingSquare(*t));
                }
                self.put_piece(&from, None);
                self.put_piece(t, Some(p));
                Ok(())
            },
            MoveType::PhaseShift => match p {
                PieceType::Skibidi(s) => {
                    let phase: u8 = if s.phase < 4 {
                        s.phase + 1
                    } else {
                        s.phase
                    };
                    self.put_piece(&from, Some(PieceType::Skibidi(Skibidi { color: s.color, phase })));
                    Ok(())
                },
                _ => Err(MoveError::UnsupportedMoveForPiece),
            },
            MoveType::MoveIntoCarrier(t) => {
                if *t == from {
                    return Err(MoveError::UnsupportedMoveForPiece);
                }
                if self.get_square_at(t).is_none() {
                    return Err(MoveError::MissingSquare(*t));
                }
                if !self.carrier_at(t) {
                    return Err(MoveError::UnsupportedMoveForPiece);
                }
                self.put_piece(&from, None);
                self.board_into(t, p)
            },
            MoveType::PieceInCarrier { piece_index, move_type } => match p {
                PieceType::Bus(bus) => {
                    proof {
                        lemma_bus_model(bus);
                    }
                    let idx = *piece_index as usize;
                    if idx >= bus.pieces.len() {
                        return Err(MoveError::UnsupportedMoveForPiece);
                    }
                    let target = match &**move_type {
                        MoveType::MoveTo(t) => *t,
                        MoveType::MoveIntoCarrier(t) => *t,
                        _ => {
                            return Err(MoveError::UnsupportedMoveForPiece);
                        },
                    };
                    if target == from {
                        return Err(MoveError::UnsupportedMoveForPiece);
                    }
                    if self.get_square_at(&target).is_none() {
                        return Err(MoveError::MissingSquare(target));
                    }
                    let into = match &**move_type {
                        MoveType::MoveIntoCarrier(_) => true,
                        _ => false,
                    };
                    if into && !self.carrier_at(&target) {
                        return Err(MoveError::UnsupportedMoveForPiece);
                    }
                    let mut bus = bus;
                    let ghost ps = bus.pieces@;
                    let q = bus.pieces.remove(idx);
                    proof {
                        assert(models_of(bus.pieces@) =~= models_of(ps).remove(idx as int));
                        lemma_bus_model(bus);
                        lemma_place_frame(old(self)@, from, Some(piece_model(PieceType::Bus(bus))), target);
                    }
                    self.put_piece(&from, Some(PieceType::Bus(bus)));
                    if into {
                        self.board_into(&target, q)
                    } else {
                        self.put_piece(&target, Some(q));
                        Ok(())
                    }
                },
                _ => Err(MoveError::UnsupportedMoveForPiece),
            },
        }
    }

    /// Boards `q` onto the carrier at `t`; nothing changes when `t` holds no carrier.
    fn board_into(&mut self, t: &Coord, q: PieceType) -> (r: Result<(), MoveError>)
        ensures
            match board_into(old(self)@, *t, q@) {
                Ok(b1) => r is Ok && final(self)@ == b1,
                Err(e) => r == Err::<(), MoveError>(e) && *final(self) == *old(self),
            },
    {
        let bus = match self.get_square_at(t) {
            None => {
                return Err(MoveError::MissingSquare(*t));
            },
            Some(sq) => match &sq.piece {
                Some(PieceType::Bus(b)) => {
                    proof {
                        lemma_bus_model(*b);
                    }
                    b.duplicate_bus()
                },
                _ => {
                    return Err(MoveError::UnsupportedMoveForPiece);
                },
            },
        };
        let mut bus = bus;
        let ghost ps = bus.pieces@;
        let ghost qm = q@;
        bus.pieces.push(q);
        proof {
            assert(models_of(bus.pieces@) =~= models_of(ps).push(qm));
            lemma_bus_model(bus);
        }
        self.put_piece(t, Some(PieceType::Bus(bus)));
        Ok(())
    }

    /// Whether the square at `t` holds a carrier.
    fn carrier_at(&self, t: &Coord) -> (r: bool)
        ensures
            r == (board_piece(self@, *t) matches Some(PieceModel::Bus { .. })),
    {
        match self.get_square_at(t) {
            Some(sq) => match &sq.piece {
                Some(PieceType::Bus(_)) => true,
                _ => false,
            },
            None => false,
        }
    }

    /// Runs the landed piece's own reaction to the move.
    pub fn handle_post_move_effects(&mut self, before: &Board, game_move: &GameMove)
        ensures
            final(self)@ == effects(before@, old(self)@, *game_move),
    {
        let t = match landing_of(&game_move.move_type) {
            Some(t) => t,
            None => {
                return ;
            },
        };
        let landed = match self.get_square_at(&t) {
            Some(sq) => match &sq.piece {
                Some(p) => p.duplicate(),
                None => {
                    return ;
                },
            },
            None => {
                return ;
            },
        };
        landed.post_move_effects(before, self, game_move);
    }

    /// Makes `game_move` if it is legal: moves, runs the landed piece's reaction, then
    /// recomputes Brainrot. An illegal or impossible move leaves the board untouched.
    pub fn make_move(&mut self, game_move: GameMove) -> (r: Result<(), MoveError>)
        ensures
            !board_moves(old(self)@, game_move.from).contains(game_move) ==> r == Err::<
                (),
                MoveError,
            >(MoveError::IllegalMove(game_move)) && *final(self) == *old(self),
            board_moves(old(self)@, game_move.from).contains(game_move) ==> match apply_move(
                old(self)@,
                game_move,
            ) {
                Ok(b1) => r is Ok && final(self)@ == recalc(effects(old(self)@, b1, game_move)),
                Err(e) => r == Err::<(), MoveError>(e) && *final(self) == *old(self),
            },
    {
        if !self.is_valid_move(&game_move) {
            return Err(MoveError::IllegalMove(game_move));
        }
        let before = self.duplicate();
        match self.apply_move(&game_move) {
            Err(e) => Err(e),
            Ok(()) => {
                self.handle_post_move_effects(&before, &game_move);
                self.recalc_brainrot();
                Ok(())
            },
        }
    }
}

/// The square a move puts a piece down on, if any.
pub fn landing_of(mt: &MoveType) -> (r: Option<Coord>)
    ensures
        r == landing(*mt),
{
    match mt {
        MoveType::MoveTo(t) => Some(*t),
        MoveType::PieceInCarrier { move_type, .. } => match &**move_type {
            MoveType::MoveTo(t) => Some(*t),
            _ => None,
        },
        _ => None,
    }
}

impl PieceType {
    /// This piece's reaction to `game_move`, which put it down: a Skibidi falls back to
    /// phase 1; a free Goblin that took an opposing piece (on `board_before`) carries it
    /// off; a kidnapping Goblin that reached home leaves its cargo there, recolored.
    pub fn post_move_effects(&self, board_before: &Board, board_after: &mut Board, game_move: &GameMove)
        ensures
            final(board_after)@ == piece_effects(board_before@, old(board_after)@, *game_move, self@),
    {
        let t = match landing_of(&game_move.move_type) {
            Some(t) => t,
            None => {
                return ;
            },
        };
        match self {
            PieceType::Skibidi(s) => {
                board_after.put_piece(&t, Some(PieceType::Skibidi(Skibidi { color: s.color, phase: 1 })));
            },
            PieceType::Goblin(g) => {
                match &g.state {
                    GoblinState::Free => {
                        match board_before.get_square_at(&t) {
                            Some(sq) => match &sq.piece {
                                Some(c) => {
                                    if c.get_color() != g.color {
                                        let kidnapped = PieceType::Goblin(Goblin {
                                            color: g.color,
                                            state: GoblinState::Kidnapping { piece: Box::new(c.duplicate()) },
                                            home_square: g.home_square,
                                        });
                                        board_after.put_piece(&t, Some(kidnapped));
                                    }
                                },
                                None => {},
                            },
                            None => {},
                        }
                    },
                    GoblinState::Kidnapping { piece } => {
                        if t == g.home_square {
                            let mut cargo = (**piece).duplicate();
                            cargo.set_color(g.color);
                            board_after.put_piece(&t, Some(cargo));
                        }
                    },
                }
            },
            _ => {},
        }
    }
}

impl Bus {
    /// A copy of the carrier with its passengers.
    pub fn duplicate_bus(&self) -> (r: Bus)
        ensures
            r.color == self.color,
            models_of(r.pieces@) == models_of(self.pieces@),
    {
        Bus { color: self.color, pieces: crate::pieces::duplicate_all(&self.pieces) }
    }
}

} // verus!
