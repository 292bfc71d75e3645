//! The piece registry: piece kinds, their state, colors and models.

use vstd::prelude::*;

use crate::board::Coord;

verus! {

broadcast use vstd::std_specs::vec::group_vec_axioms, vstd::seq::group_seq_axioms;

/// The two sides of the game.
#[derive(Clone, Copy, PartialEq, Eq, Debug, Structural)]
pub enum Color {
    White,
    Black,
}

impl Color {
    pub open spec fn spec_opposite(self) -> Color {
        match self {
            Color::White => Color::Black,
            Color::Black => Color::White,
        }
    }

    pub fn opposite(&self) -> (r: Color)
        ensures
            r == self.spec_opposite(),
            r != *self,
    {
        match self {
            Color::White => Color::Black,
            Color::Black => Color::White,
        }
    }
}

#[derive(Clone, Copy, PartialEq, Eq, Debug, Structural)]
pub struct Pawn {
    pub color: Color,
}

#[derive(Clone, Copy, PartialEq, Eq, Debug, Structural)]
pub struct Rook {
    pub color: Color,
}

#[derive(Clone, Copy, PartialEq, Eq, Debug, Structural)]
pub struct Knight {
    pub color: Color,
}

#[derive(Clone, Copy, PartialEq, Eq, Debug, Structural)]
pub struct Bishop {
    pub color: Color,
}

#[derive(Clone, Copy, PartialEq, Eq, Debug, Structural)]
pub struct Queen {
    pub color: Color,
}

#[derive(Clone, Copy, PartialEq, Eq, Debug, Structural)]
pub struct King {
    pub color: Color,
}

/// Moves one step onto empty squares, and jumps over adjacent pieces in chains.
#[derive(Clone, Copy, PartialEq, Eq, Debug, Structural)]
pub struct Monkey {
    pub color: Color,
}

/// Radiates Brainrot around itself; its radius grows with its phase.
#[derive(Clone, Copy, PartialEq, Eq, Debug, Structural)]
pub struct Skibidi {
    pub color: Color,
    pub phase: u8,
}

/// Whether a Goblin is roaming or carrying a captured piece home.
#[derive(PartialEq, Debug)]
pub enum GoblinState {
    Free,
    Kidnapping { piece: Box<PieceType> },
}

#[derive(PartialEq, Debug)]
pub struct Goblin {
    pub color: Color,
    pub state: GoblinState,
    pub home_square: Coord,
}

/// A carrier: holds an ordered list of passengers.
#[derive(PartialEq, Debug)]
pub struct Bus {
    pub color: Color,
    pub pieces: Vec<PieceType>,
}

/// The closed registry of piece kinds.
#[derive(PartialEq, Debug)]
pub enum PieceType {
    Pawn(Pawn),
    Rook(Rook),
    Knight(Knight),
    Bishop(Bishop),
    Queen(Queen),
    King(King),
    Monkey(Monkey),
    Goblin(Goblin),
    Skibidi(Skibidi),
    Bus(Bus),
}

/// The standard chess pieces alone.
#[derive(Clone, Copy, PartialEq, Eq, Debug, Structural)]
pub enum PieceKind {
    Pawn(Pawn),
    Rook(Rook),
    Knight(Knight),
    Bishop(Bishop),
    Queen(Queen),
    King(King),
}

/// The mathematical value of a piece: what it is, with all of its state.
pub enum PieceModel {
    Pawn(Color),
    Rook(Color),
    Knight(Color),
    Bishop(Color),
    Queen(Color),
    King(Color),
    Monkey(Color),
    Goblin { color: Color, cargo: Option<Box<PieceModel>>, home: Coord },
    Skibidi { color: Color, phase: u8 },
    Bus { color: Color, passengers: Seq<PieceModel> },
}

pub open spec fn piece_model(p: PieceType) -> PieceModel
    decreases p,
{
    match p {
        PieceType::Pawn(x) => PieceModel::Pawn(x.color),
        PieceType::Rook(x) => PieceModel::Rook(x.color),
        PieceType::Knight(x) => PieceModel::Knight(x.color),
        PieceType::Bishop(x) => PieceModel::Bishop(x.color),
        PieceType::Queen(x) => PieceModel::Queen(x.color),
        PieceType::King(x) => PieceModel::King(x.color),
        PieceType::Monkey(x) => PieceModel::Monkey(x.color),
        PieceType::Goblin(g) => PieceModel::Goblin {
            color: g.color,
            cargo: match g.state {
                GoblinState::Free => None,
                GoblinState::Kidnapping { piece } => Some(Box::new(piece_model(*piece))),
            },
            home: g.home_square,
        },
        PieceType::Skibidi(s) => PieceModel::Skibidi { color: s.color, phase: s.phase },
        PieceType::Bus(b) => PieceModel::Bus {
            color: b.color,
            passengers: Seq::new(
                b.pieces.len() as nat,
                |i: int|
                    if 0 <= i < b.pieces.len() {
                        piece_model(b.pieces[i])
                    } else {
                        PieceModel::Pawn(Color::White)
                    },
            ),
        },
    }
}

impl View for PieceType {
    type V = PieceModel;

    open spec fn view(&self) -> PieceModel {
        piece_model(*self)
    }
}

pub open spec fn models_of(v: Seq<PieceType>) -> Seq<PieceModel> {
    v.map_values(|p: PieceType| p@)
}

/// A carrier's model lists the models of its passengers.
pub proof fn lemma_bus_model(b: Bus)
    ensures
        piece_model(PieceType::Bus(b)) == (PieceModel::Bus {
            color: b.color,
            passengers: models_of(b.pieces@),
        }),
{
    assert(piece_model(PieceType::Bus(b))->passengers =~= models_of(b.pieces@));
}

impl PieceModel {
    pub open spec fn color(self) -> Color {
        match self {
            PieceModel::Pawn(c) => c,
            PieceModel::Rook(c) => c,
            PieceModel::Knight(c) => c,
            PieceModel::Bishop(c) => c,
            PieceModel::Queen(c) => c,
            PieceModel::King(c) => c,
            PieceModel::Monkey(c) => c,
            PieceModel::Goblin { color, .. } => color,
            PieceModel::Skibidi { color, .. } => color,
            PieceModel::Bus { color, .. } => color,
        }
    }

    pub open spec fn with_color(self, c: Color) -> PieceModel {
        match self {
            PieceModel::Pawn(_) => PieceModel::Pawn(c),
            PieceModel::Rook(_) => PieceModel::Rook(c),
            PieceModel::Knight(_) => PieceModel::Knight(c),
            PieceModel::Bishop(_) => PieceModel::Bishop(c),
            PieceModel::Queen(_) => PieceModel::Queen(c),
            PieceModel::King(_) => PieceModel::King(c),
            PieceModel::Monkey(_) => PieceModel::Monkey(c),
            PieceModel::Goblin { cargo, home, .. } => PieceModel::Goblin { color: c, cargo, home },
            PieceModel::Skibidi { phase, .. } => PieceModel::Skibidi { color: c, phase },
            PieceModel::Bus { passengers, .. } => PieceModel::Bus { color: c, passengers },
        }
    }

    /// Only a carrier can take friendly pieces aboard.
    pub open spec fn can_carry(self) -> bool {
        self is Bus
    }
}

impl Goblin {
    pub fn new(color: Color, home_square: Coord) -> (r: Goblin)
        ensures
            r.color == color,
            r.state is Free,
            r.home_square == home_square,
    {
        Goblin { color, state: GoblinState::Free, home_square }
    }
}

impl Skibidi {
    pub fn new(color: Color) -> (r: Skibidi)
        ensures
            r == (Skibidi { color, phase: 1 }),
    {
        Skibidi { color, phase: 1 }
    }
}

impl Bus {
    pub fn new(color: Color) -> (r: Bus)
        ensures
            r.color == color,
            r.pieces@.len() == 0,
    {
        Bus { color, pieces: Vec::new() }
    }
}

impl PieceKind {
    pub fn new_pawn(color: Color) -> (r: PieceKind)
        ensures
            r == PieceKind::Pawn(Pawn { color }),
    {
        PieceKind::Pawn(Pawn { color })
    }

    pub fn new_rook(color: Color) -> (r: PieceKind)
        ensures
            r == PieceKind::Rook(Rook { color }),
    {
        PieceKind::Rook(Rook { color })
    }

    pub fn new_knight(color: Color) -> (r: PieceKind)
        ensures
            r == PieceKind::Knight(Knight { color }),
    {
        PieceKind::Knight(Knight { color })
    }

    pub fn new_bishop(color: Color) -> (r: PieceKind)
        ensures
            r == PieceKind::Bishop(Bishop { color }),
    {
        PieceKind::Bishop(Bishop { color })
    }

    pub fn new_queen(color: Color) -> (r: PieceKind)
        ensures
            r == PieceKind::Queen(Queen { color }),
    {
        PieceKind::Queen(Queen { color })
    }

    pub fn new_king(color: Color) -> (r: PieceKind)
        ensures
            r == PieceKind::King(King { color }),
    {
        PieceKind::King(King { color })
    }

    pub open spec fn spec_piece_type(self) -> PieceType {
        match self {
            PieceKind::Pawn(x) => PieceType::Pawn(x),
            PieceKind::Rook(x) => PieceType::Rook(x),
            PieceKind::Knight(x) => PieceType::Knight(x),
            PieceKind::Bishop(x) => PieceType::Bishop(x),
            PieceKind::Queen(x) => PieceType::Queen(x),
            PieceKind::King(x) => PieceType::King(x),
        }
    }
}

impl From<PieceKind> for PieceType {
    fn from(k: PieceKind) -> (r: PieceType)
        ensures
            r == k.spec_piece_type(),
    {
        match k {
            PieceKind::Pawn(x) => PieceType::Pawn(x),
            PieceKind::Rook(x) => PieceType::Rook(x),
            PieceKind::Knight(x) => PieceType::Knight(x),
            PieceKind::Bishop(x) => PieceType::Bishop(x),
            PieceKind::Queen(x) => PieceType::Queen(x),
            PieceKind::King(x) => PieceType::King(x),
        }
    }
}

impl vstd::std_specs::convert::FromSpecImpl<PieceKind> for PieceType {
    open spec fn obeys_from_spec() -> bool {
        true
    }

    open spec fn from_spec(k: PieceKind) -> PieceType {
        k.spec_piece_type()
    }
}

impl PieceType {
    pub fn new_pawn(color: Color) -> (r: PieceType)
        ensures
            r == PieceType::Pawn(Pawn { color }),
    {
        PieceType::Pawn(Pawn { color })
    }

    pub fn new_rook(color: Color) -> (r: PieceType)
        ensures
            r == PieceType::Rook(Rook { color }),
    {
        PieceType::Rook(Rook { color })
    }

    pub fn new_knight(color: Color) -> (r: PieceType)
        ensures
            r == PieceType::Knight(Knight { color }),
    {
        PieceType::Knight(Knight { color })
    }

    pub fn new_bishop(color: Color) -> (r: PieceType)
        ensures
            r == PieceType::Bishop(Bishop { color }),
    {
        PieceType::Bishop(Bishop { color })
    }

    pub fn new_queen(color: Color) -> (r: PieceType)
        ensures
            r == PieceType::Queen(Queen { color }),
    {
        PieceType::Queen(Queen { color })
    }

    pub fn new_king(color: Color) -> (r: PieceType)
        ensures
            r == PieceType::King(King { color }),
    {
        PieceType::King(King { color })
    }

    /// Every piece blocks a sliding piece's path.
    pub fn blocks_path(&self) -> (r: bool)
        ensures
            r,
    {
        true
    }

    pub fn can_carry_piece(&self) -> (r: bool)
        ensures
            r == self@.can_carry(),
    {
        matches!(self, PieceType::Bus(_))
    }

    pub fn get_color(&self) -> (r: Color)
        ensures
            r == self@.color(),
    {
        match self {
            PieceType::Pawn(x) => x.color,
            PieceType::Rook(x) => x.color,
            PieceType::Knight(x) => x.color,
            PieceType::Bishop(x) => x.color,
            PieceType::Queen(x) => x.color,
            PieceType::King(x) => x.color,
            PieceType::Monkey(x) => x.color,
            PieceType::Goblin(x) => x.color,
            PieceType::Skibidi(x) => x.color,
            PieceType::Bus(x) => x.color,
        }
    }

    pub fn set_color(&mut self, color: Color)
        ensures
            final(self)@ == old(self)@.with_color(color),
    {
        match self {
            PieceType::Pawn(x) => x.color = color,
            PieceType::Rook(x) => x.color = color,
            PieceType::Knight(x) => x.color = color,
            PieceType::Bishop(x) => x.color = color,
            PieceType::Queen(x) => x.color = color,
            PieceType::King(x) => x.color = color,
            PieceType::Monkey(x) => x.color = color,
            PieceType::Goblin(x) => x.color = color,
            PieceType::Skibidi(x) => x.color = color,
            PieceType::Bus(x) => x.color = color,
        }
    }

    /// A copy of the piece, with all of its state.
    pub fn duplicate(&self) -> (r: PieceType)
        ensures
            r@ == self@,
        decreases self,
    {
        match self {
            PieceType::Pawn(x) => PieceType::Pawn(*x),
            PieceType::Rook(x) => PieceType::Rook(*x),
            PieceType::Knight(x) => PieceType::Knight(*x),
            PieceType::Bishop(x) => PieceType::Bishop(*x),
            PieceType::Queen(x) => PieceType::Queen(*x),
            PieceType::King(x) => PieceType::King(*x),
            PieceType::Monkey(x) => PieceType::Monkey(*x),
            PieceType::Skibidi(x) => PieceType::Skibidi(*x),
            PieceType::Goblin(g) => {
                let state = match &g.state {
                    GoblinState::Free => GoblinState::Free,
                    GoblinState::Kidnapping { piece } => {
                        let inner = (**piece).duplicate();
                        GoblinState::Kidnapping { piece: Box::new(inner) }
                    },
                };
                PieceType::Goblin(Goblin { color: g.color, state, home_square: g.home_square })
            },
            PieceType::Bus(b) => {
                let pieces = duplicate_all(&b.pieces);
                let r = PieceType::Bus(Bus { color: b.color, pieces });
                proof {
                    assert(models_of(pieces@).len() == models_of(b.pieces@).len());
                    assert forall|k: int| 0 <= k < pieces@.len() implies piece_model(pieces@[k])
                        == piece_model(b.pieces@[k]) by {
                        assert(models_of(pieces@)[k] == models_of(b.pieces@)[k]);
                    }
                    assert(r@->passengers =~= self@->passengers);
                }
                r
            },
        }
    }
}

impl Clone for PieceType {
    fn clone(&self) -> (r: PieceType)
        ensures
            r@ == self@,
    {
        self.duplicate()
    }
}

/// Copies a list of pieces, in order.
pub fn duplicate_all(v: &Vec<PieceType>) -> (r: Vec<PieceType>)
    ensures
        models_of(r@) == models_of(v@),
    decreases v,
{
    let mut r: Vec<PieceType> = Vec::new();
    let mut i: usize = 0;
    while i < v.len()
        invariant
            i <= v.len(),
            r@.len() == i,
            forall|k: int| 0 <= k < i ==> r@[k]@ == v@[k]@,
        decreases v.len() - i,
    {
        let p = v[i].duplicate();
        r.push(p);
        i += 1;
    }
    assert(models_of(r@) =~= models_of(v@));
    r
}

} // verus!
