//! Coordinates, moves, squares and the board, with their models and accessors.

use vstd::prelude::*;

use crate::pieces::{Color, PieceModel, PieceType};

verus! {

broadcast use vstd::std_specs::vec::group_vec_axioms, vstd::seq::group_seq_axioms;

pub type File = u8;

pub type Rank = u8;

/// A signed step on the board: (file offset, rank offset).
pub type Direction = (i8, i8);

/// A square's address: file and rank, each in 0..8 on a board.
#[derive(Clone, Copy, PartialEq, Eq, Debug, Structural)]
pub struct Coord {
    pub file: File,
    pub rank: Rank,
}

/// What a move does.
#[derive(PartialEq, Debug)]
pub enum MoveType {
    /// Step or slide to the coordinate; whatever stands there is captured.
    MoveTo(Coord),
    /// Raise the moving piece's phase in place.
    PhaseShift,
    /// Board the friendly carrier standing on the coordinate.
    MoveIntoCarrier(Coord),
    /// The passenger at `piece_index` of the carrier leaves it with `move_type`.
    PieceInCarrier { piece_index: u8, move_type: Box<MoveType> },
}

#[derive(PartialEq, Debug)]
pub struct GameMove {
    pub from: Coord,
    pub move_type: MoveType,
}

/// Castling rights and en-passant target: carried through the notation, not consulted.
#[derive(Clone, Copy, PartialEq, Eq, Debug, Structural)]
pub struct BoardFlags {
    pub white_can_castle_kingside: bool,
    pub white_can_castle_queenside: bool,
    pub black_can_castle_kingside: bool,
    pub black_can_castle_queenside: bool,
    pub en_passant_target: Option<Coord>,
}

/// Terrain of a square.
#[derive(Clone, Copy, PartialEq, Eq, Debug, Structural)]
pub enum SquareType {
    Standard,
    Turret,
    Vent,
}

/// A tag on a square; a tagged square's occupant cannot move.
#[derive(Clone, Copy, PartialEq, Eq, Debug, Structural)]
pub enum SquareCondition {
    Frozen,
    Brainrot,
}

#[derive(PartialEq, Debug)]
pub struct Square {
    pub piece: Option<PieceType>,
    pub square_type: SquareType,
    pub conditions: Vec<SquareCondition>,
}

/// A rank-major grid of squares, with the board-level flags.
#[derive(PartialEq, Debug)]
pub struct Board {
    pub grid: Vec<Vec<Square>>,
    pub flags: BoardFlags,
}

pub struct SquareModel {
    pub piece: Option<PieceModel>,
    pub square_type: SquareType,
    pub conditions: Seq<SquareCondition>,
}

pub struct BoardModel {
    pub grid: Seq<Seq<SquareModel>>,
    pub flags: BoardFlags,
}

pub open spec fn piece_opt_model(p: Option<PieceType>) -> Option<PieceModel> {
    match p {
        Some(x) => Some(x@),
        None => None,
    }
}

impl View for Square {
    type V = SquareModel;

    open spec fn view(&self) -> SquareModel {
        SquareModel {
            piece: piece_opt_model(self.piece),
            square_type: self.square_type,
            conditions: self.conditions@,
        }
    }
}

pub open spec fn row_model(row: Seq<Square>) -> Seq<SquareModel> {
    row.map_values(|s: Square| s@)
}

impl View for Board {
    type V = BoardModel;

    open spec fn view(&self) -> BoardModel {
        BoardModel {
            grid: self.grid@.map_values(|row: Vec<Square>| row_model(row@)),
            flags: self.flags,
        }
    }
}

impl SquareModel {
    pub open spec fn empty() -> SquareModel {
        SquareModel { piece: None, square_type: SquareType::Standard, conditions: seq![] }
    }

    /// A tagged square's occupant is held in place.
    pub open spec fn holds_still(self) -> bool {
        self.conditions.contains(SquareCondition::Frozen) || self.conditions.contains(
            SquareCondition::Brainrot,
        )
    }
}

impl BoardModel {
    /// The square (f, r) lies within the 8 x 8 frame and exists in the grid.
    pub open spec fn on_board(self, f: int, r: int) -> bool {
        0 <= f < 8 && 0 <= r < 8 && r < self.grid.len() && f < self.grid[r].len()
    }

    pub open spec fn sq(self, f: int, r: int) -> SquareModel {
        self.grid[r][f]
    }

    pub open spec fn piece_at(self, f: int, r: int) -> Option<PieceModel> {
        if self.on_board(f, r) {
            self.sq(f, r).piece
        } else {
            None
        }
    }

    pub open spec fn occupied(self, f: int, r: int) -> bool {
        self.piece_at(f, r) is Some
    }

    /// Standard terrain and no occupant.
    pub open spec fn is_empty_at(self, f: int, r: int) -> bool {
        self.on_board(f, r) && self.sq(f, r).square_type == SquareType::Standard && self.sq(
            f,
            r,
        ).piece is None
    }

    pub open spec fn with_square(self, f: int, r: int, s: SquareModel) -> BoardModel {
        if self.on_board(f, r) {
            BoardModel { grid: self.grid.update(r, self.grid[r].update(f, s)), flags: self.flags }
        } else {
            self
        }
    }

    pub open spec fn with_piece(self, f: int, r: int, p: Option<PieceModel>) -> BoardModel {
        self.with_square(f, r, SquareModel { piece: p, ..self.sq(f, r) })
    }
}

pub open spec fn coord_at(f: int, r: int) -> Coord {
    Coord { file: f as u8, rank: r as u8 }
}

impl Square {
    pub fn new() -> (r: Square)
        ensures
            r@ == SquareModel::empty(),
    {
        let r = Square { piece: None, square_type: SquareType::Standard, conditions: Vec::new() };
        assert(r@.conditions =~= seq![]);
        r
    }

    pub fn set_piece(self, piece: PieceType) -> (r: Square)
        ensures
            r@ == (SquareModel { piece: Some(piece@), ..self@ }),
    {
        let mut s = self;
        s.piece = Some(piece);
        s
    }

    pub fn remove_piece(self) -> (r: Square)
        ensures
            r@ == (SquareModel { piece: None, ..self@ }),
    {
        let mut s = self;
        s.piece = None;
        s
    }

    pub fn set_square_type(self, square_type: SquareType) -> (r: Square)
        ensures
            r@ == (SquareModel { square_type, ..self@ }),
    {
        let mut s = self;
        s.square_type = square_type;
        s
    }

    pub fn add_square_condition(self, square_condition: SquareCondition) -> (r: Square)
        ensures
            r@ == (SquareModel { conditions: self@.conditions.push(square_condition), ..self@ }),
    {
        let mut s = self;
        s.conditions.push(square_condition);
        s
    }

    pub fn has_piece(&self) -> (r: bool)
        ensures
            r == self.piece is Some,
    {
        self.piece.is_some()
    }

    pub fn has_piece_of_color(&self, color: Color) -> (r: bool)
        ensures
            r == (self@.piece is Some && self@.piece->0.color() == color),
    {
        match &self.piece {
            Some(p) => p.get_color() == color,
            None => false,
        }
    }

    /// Whether the square carries a tag that holds its occupant in place.
    pub fn holds_still(&self) -> (r: bool)
        ensures
            r == self@.holds_still(),
    {
        let mut i: usize = 0;
        while i < self.conditions.len()
            invariant
                i <= self.conditions@.len(),
                forall|k: int| 0 <= k < i ==> self.conditions@[k] != SquareCondition::Frozen
                    && self.conditions@[k] != SquareCondition::Brainrot,
            decreases self.conditions.len() - i,
        {
            let c = self.conditions[i];
            if c == SquareCondition::Frozen || c == SquareCondition::Brainrot {
                assert(self.conditions@[i as int] == c);
                return true;
            }
            i += 1;
        }
        false
    }

    /// A copy of the square, with its occupant's full state.
    pub fn duplicate(&self) -> (r: Square)
        ensures
            r@ == self@,
    {
        let piece = match &self.piece {
            Some(p) => Some(p.duplicate()),
            None => None,
        };
        let conditions = copy_conditions(&self.conditions);
        Square { piece, square_type: self.square_type, conditions }
    }
}

fn copy_conditions(v: &Vec<SquareCondition>) -> (r: Vec<SquareCondition>)
    ensures
        r@ == v@,
{
    let mut r: Vec<SquareCondition> = Vec::new();
    let mut i: usize = 0;
    while i < v.len()
        invariant
            i <= v.len(),
            r@ == v@.take(i as int),
        decreases v.len() - i,
    {
        r.push(v[i]);
        i += 1;
        assert(r@ =~= v@.take(i as int));
    }
    assert(v@.take(v@.len() as int) =~= v@);
    r
}

impl SquareType {
    pub open spec fn spec_as_str(self) -> Seq<char> {
        match self {
            SquareType::Standard => "STANDARD"@,
            SquareType::Turret => "TURRET"@,
            SquareType::Vent => "VENT"@,
        }
    }

    pub fn as_str(&self) -> (r: &'static str)
        ensures
            r@ == self.spec_as_str(),
    {
        match self {
            SquareType::Standard => "STANDARD",
            SquareType::Turret => "TURRET",
            SquareType::Vent => "VENT",
        }
    }
}

impl SquareCondition {
    pub open spec fn spec_as_str(self) -> Seq<char> {
        match self {
            SquareCondition::Frozen => "FROZEN"@,
            SquareCondition::Brainrot => "BRAINROT"@,
        }
    }

    pub fn as_str(&self) -> (r: &'static str)
        ensures
            r@ == self.spec_as_str(),
    {
        match self {
            SquareCondition::Frozen => "FROZEN",
            SquareCondition::Brainrot => "BRAINROT",
        }
    }
}

impl Board {
    /// Returns true if (file, rank) lies within the 8 x 8 frame and the grid has that square.
    pub fn in_bounds(&self, file: isize, rank: isize) -> (r: bool)
        ensures
            r == self@.on_board(file as int, rank as int),
    {
        0 <= file && file < 8 && 0 <= rank && rank < 8 && (rank as usize) < self.grid.len() && (
        file as usize) < self.grid[rank as usize].len()
    }

    /// The square at `coord`, if it is on the board.
    pub fn get_square_at(&self, coord: &Coord) -> (r: Option<&Square>)
        ensures
            r is Some <==> self@.on_board(coord.file as int, coord.rank as int),
            r is Some ==> r->0@ == self@.sq(coord.file as int, coord.rank as int),
    {
        if self.in_bounds(coord.file as isize, coord.rank as isize) {
            Some(&self.grid[coord.rank as usize][coord.file as usize])
        } else {
            None
        }
    }

    /// Places `piece` on the square at `coord`; a coordinate off the board changes nothing.
    pub fn set_piece_at(&mut self, coord: &Coord, piece: PieceType)
        ensures
            final(self)@ == old(self)@.with_piece(
                coord.file as int,
                coord.rank as int,
                Some(piece@),
            ),
    {
        self.put_piece(coord, Some(piece));
    }

    /// Sets the occupant of the square at `coord` (none: empties it); off the board, nothing.
    pub fn put_piece(&mut self, coord: &Coord, piece: Option<PieceType>)
        ensures
            final(self)@ == old(self)@.with_piece(
                coord.file as int,
                coord.rank as int,
                piece_opt_model(piece),
            ),
            final(self).flags == old(self).flags,
    {
        let ghost f = coord.file as int;
        let ghost r = coord.rank as int;
        let ghost pm = piece_opt_model(piece);
        if self.in_bounds(coord.file as isize, coord.rank as isize) {
            let ri = coord.rank as usize;
            let fi = coord.file as usize;
            self.grid[ri][fi].piece = piece;
            assert(self@.grid[r] =~= old(self)@.grid[r].update(f, old(self)@.sq(f, r).with_piece_m(pm)));
            assert(self@.grid =~= old(self)@.grid.update(r, old(self)@.grid[r].update(f, old(self)@.sq(f, r).with_piece_m(pm))));
        }
    }

    /// Standard terrain with no occupant.
    pub fn square_is_empty(&self, coord: &Coord) -> (r: bool)
        ensures
            r == self@.is_empty_at(coord.file as int, coord.rank as int),
    {
        match self.get_square_at(coord) {
            Some(s) => s.square_type == SquareType::Standard && s.piece.is_none(),
            None => false,
        }
    }
}

impl MoveType {
    pub fn duplicate(&self) -> (r: MoveType)
        ensures
            r == *self,
        decreases self,
    {
        match self {
            MoveType::MoveTo(c) => MoveType::MoveTo(*c),
            MoveType::PhaseShift => MoveType::PhaseShift,
            MoveType::MoveIntoCarrier(c) => MoveType::MoveIntoCarrier(*c),
            MoveType::PieceInCarrier { piece_index, move_type } => {
                let inner = (**move_type).duplicate();
                MoveType::PieceInCarrier { piece_index: *piece_index, move_type: Box::new(inner) }
            },
        }
    }

    /// Structural equality of two move types.
    pub fn same_as(&self, other: &MoveType) -> (r: bool)
        ensures
            r == (*self == *other),
        decreases self,
    {
        match (self, other) {
            (MoveType::MoveTo(a), MoveType::MoveTo(b)) => *a == *b,
            (MoveType::PhaseShift, MoveType::PhaseShift) => true,
            (MoveType::MoveIntoCarrier(a), MoveType::MoveIntoCarrier(b)) => *a == *b,
            (
                MoveType::PieceInCarrier { piece_index: i, move_type: m },
                MoveType::PieceInCarrier { piece_index: j, move_type: n },
            ) => *i == *j && (**m).same_as(&**n),
            _ => false,
        }
    }
}

impl Clone for MoveType {
    fn clone(&self) -> (r: MoveType)
        ensures
            r == *self,
    {
        self.duplicate()
    }
}

impl GameMove {
    /// Structural equality of two moves.
    pub fn same_as(&self, other: &GameMove) -> (r: bool)
        ensures
            r == (*self == *other),
    {
        self.from == other.from && self.move_type.same_as(&other.move_type)
    }
}

impl Clone for GameMove {
    fn clone(&self) -> (r: GameMove)
        ensures
            r == *self,
    {
        GameMove { from: self.from, move_type: self.move_type.duplicate() }
    }
}

impl Clone for Square {
    fn clone(&self) -> (r: Square)
        ensures
            r@ == self@,
    {
        self.duplicate()
    }
}

fn copy_row(row: &Vec<Square>) -> (r: Vec<Square>)
    ensures
        row_model(r@) == row_model(row@),
{
    let mut r: Vec<Square> = Vec::new();
    let mut i: usize = 0;
    while i < row.len()
        invariant
            i <= row.len(),
            r@.len() == i,
            forall|k: int| 0 <= k < i ==> (#[trigger] r@[k])@ == row@[k]@,
        decreases row.len() - i,
    {
        r.push(row[i].duplicate());
        i += 1;
    }
    assert(row_model(r@) =~= row_model(row@));
    r
}

impl Board {
    /// A copy of the board, squares and pieces included.
    pub fn duplicate(&self) -> (r: Board)
        ensures
            r@ == self@,
    {
        let mut grid: Vec<Vec<Square>> = Vec::new();
        let mut i: usize = 0;
        while i < self.grid.len()
            invariant
                i <= self.grid.len(),
                grid@.len() == i,
                forall|k: int| 0 <= k < i ==> row_model(#[trigger] grid@[k]@) == row_model(self.grid@[k]@),
            decreases self.grid.len() - i,
        {
            grid.push(copy_row(&self.grid[i]));
            i += 1;
        }
        let r = Board { grid, flags: self.flags };
        assert(r@.grid =~= self@.grid);
        r
    }
}

impl Clone for Board {
    fn clone(&self) -> (r: Board)
        ensures
            r@ == self@,
    {
        self.duplicate()
    }
}

impl SquareModel {
    pub open spec fn with_piece_m(self, p: Option<PieceModel>) -> SquareModel {
        SquareModel { piece: p, ..self }
    }
}

/// A square's index on an 8 x 8 board: `rank * 8 + file`.
pub type Sq = u8;

fn coord_to_sq(c: Coord) -> (r: Sq)
    requires
        c.file < 8,
        c.rank < 8,
    ensures
        r == c.rank * 8 + c.file,
{
    c.rank * 8 + c.file
}

fn sq_to_coord(sq: Sq) -> (r: Coord)
    ensures
        r.file == sq % 8,
        r.rank == sq / 8,
        sq < 64 ==> coord_to_sq_spec(r) == sq,
{
    Coord { file: sq % 8, rank: sq / 8 }
}

pub open spec fn coord_to_sq_spec(c: Coord) -> int {
    c.rank * 8 + c.file
}

/// Kinds of move of the general movement vocabulary.
pub enum MoveKind {
    Normal,
    Capture,
    Castling,
    Promotion(PieceType),
    EnPassant,
    Teleport,
    Custom(&'static str),
}

/// A move between square indices.
pub struct Move {
    pub from: Option<Sq>,
    pub to: Sq,
    pub kind: MoveKind,
}

/// The occupied squares of the board, rank by rank, each with its piece.
pub open spec fn rank_pieces(b: BoardModel, r: int) -> Seq<(Coord, PieceModel)> {
    Seq::new(
        8,
        |f: int|
            if b.occupied(f, r) {
                seq![(coord_at(f, r), b.piece_at(f, r)->0)]
            } else {
                seq![]
            },
    ).flatten()
}

pub open spec fn all_pieces_of(b: BoardModel) -> Seq<(Coord, PieceModel)> {
    Seq::new(8, |r: int| rank_pieces(b, r)).flatten()
}

pub open spec fn listed(v: Seq<(Coord, PieceType)>) -> Seq<(Coord, PieceModel)> {
    v.map_values(|x: (Coord, PieceType)| (x.0, x.1@))
}

impl Board {
    /// Every piece on the board with its coordinate, rank by rank and file by file.
    pub fn all_pieces(&self) -> (r: Vec<(Coord, PieceType)>)
        ensures
            listed(r@) == all_pieces_of(self@),
    {
        let ghost ranks = Seq::new(8, |r: int| rank_pieces(self@, r));
        let mut out: Vec<(Coord, PieceType)> = Vec::new();
        let mut r: u8 = 0;
        while r < 8
            invariant
                r <= 8,
                ranks == Seq::new(8, |r: int| rank_pieces(self@, r)),
                listed(out@) == ranks.take(r as int).flatten(),
            decreases 8 - r,
        {
            let ghost files = Seq::new(
                8,
                |f: int|
                    if self@.occupied(f, r as int) {
                        seq![(coord_at(f, r as int), self@.piece_at(f, r as int)->0)]
                    } else {
                        seq![]
                    },
            );
            let ghost base = listed(out@);
            let mut f: u8 = 0;
            while f < 8
                invariant
                    r < 8,
                    f <= 8,
                    files == Seq::new(
                        8,
                        |f: int|
                            if self@.occupied(f, r as int) {
                                seq![(coord_at(f, r as int), self@.piece_at(f, r as int)->0)]
                            } else {
                                seq![]
                            },
                    ),
                    listed(out@) == base + files.take(f as int).flatten(),
                decreases 8 - f,
            {
                let ghost prev = out@;
                let c = Coord { file: f, rank: r };
                match self.get_square_at(&c) {
                    Some(sq) => match &sq.piece {
                        Some(p) => {
                            out.push((c, p.duplicate()));
                            assert(listed(out@) =~= listed(prev).push((c, p@)));
                        },
                        None => {},
                    },
                    None => {},
                }
                proof {
                    crate::movegen::lemma_flatten_take_step(files, f as int);
                    assert(listed(out@) =~= base + files.take(f + 1).flatten());
                }
                f += 1;
            }
            proof {
                crate::movegen::lemma_flatten_take_all(files);
                crate::movegen::lemma_flatten_take_step(ranks, r as int);
                assert(listed(out@) =~= ranks.take(r + 1).flatten());
            }
            r += 1;
        }
        proof {
            crate::movegen::lemma_flatten_take_all(ranks);
        }
        out
    }

    /// The square at `coord` for changing in place, if it is on the board.
    pub fn get_square_mut(&mut self, coord: &Coord) -> (r: Option<&mut Square>)
        ensures
            r is Some <==> old(self)@.on_board(coord.file as int, coord.rank as int),
            match r {
                Some(s) => {
                    &&& *s == old(self).grid@[coord.rank as int]@[coord.file as int]
                    &&& final(self).grid@ == old(self).grid@.update(
                        coord.rank as int,
                        final(self).grid@[coord.rank as int],
                    )
                    &&& final(self).grid@[coord.rank as int]@ == old(
                        self,
                    ).grid@[coord.rank as int]@.update(coord.file as int, *final(s))
                    &&& final(self).flags == old(self).flags
                },
                None => *final(self) == *old(self),
            },
    {
        if self.in_bounds(coord.file as isize, coord.rank as isize) {
            let row = &mut self.grid[coord.rank as usize];
            Some(&mut row[coord.file as usize])
        } else {
            None
        }
    }
}

} // verus!
