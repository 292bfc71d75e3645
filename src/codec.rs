//! Writing pieces, squares and boards in the notation.

use vstd::prelude::*;

use crate::board::{Board, BoardModel, Square, SquareModel, SquareType};
use crate::pieces::{Bus, Color, GoblinState, PieceKind, PieceModel, PieceType};

verus! {

broadcast use vstd::std_specs::vec::group_vec_axioms, vstd::seq::group_seq_axioms;

/// Relies on `String`'s `FromIterator<&char>`: the string holds the given characters, in order.
#[verifier::external_body]
fn chars_to_string(v: &Vec<char>) -> (r: String)
    ensures
        r@ == v@,
{
    v.iter().collect()
}

/// The string of the given characters.
pub fn string_of(v: &Vec<char>) -> (r: String)
    ensures
        r@ == v@,
{
    chars_to_string(v)
}

/// The characters of `s`, in order.
pub fn str_chars(s: &str) -> (r: Vec<char>)
    ensures
        r@ == s@,
{
    let n = s.unicode_len();
    let mut out: Vec<char> = Vec::new();
    let mut i: usize = 0;
    while i < n
        invariant
            n == s@.len(),
            i <= n,
            out@ == s@.take(i as int),
        decreases n - i,
    {
        out.push(s.get_char(i));
        i += 1;
        assert(out@ =~= s@.take(i as int));
    }
    assert(s@.take(n as int) =~= s@);
    out
}

fn push_lit(out: &mut Vec<char>, s: &str)
    ensures
        final(out)@ == old(out)@ + s@,
{
    let cs = str_chars(s);
    let mut i: usize = 0;
    while i < cs.len()
        invariant
            i <= cs@.len(),
            cs@ == s@,
            out@ == old(out)@ + cs@.take(i as int),
        decreases cs@.len() - i,
    {
        out.push(cs[i]);
        i += 1;
        assert(out@ =~= old(out)@ + cs@.take(i as int));
    }
    assert(cs@.take(cs@.len() as int) =~= cs@);
}

fn push_all(out: &mut Vec<char>, s: &Vec<char>)
    ensures
        final(out)@ == old(out)@ + s@,
{
    let mut i: usize = 0;
    while i < s.len()
        invariant
            i <= s@.len(),
            out@ == old(out)@ + s@.take(i as int),
        decreases s@.len() - i,
    {
        out.push(s[i]);
        i += 1;
        assert(out@ =~= old(out)@ + s@.take(i as int));
    }
    assert(s@.take(s@.len() as int) =~= s@);
}

pub open spec fn digit_char(d: int) -> char {
    if d == 0 {
        '0'
    } else if d == 1 {
        '1'
    } else if d == 2 {
        '2'
    } else if d == 3 {
        '3'
    } else if d == 4 {
        '4'
    } else if d == 5 {
        '5'
    } else if d == 6 {
        '6'
    } else if d == 7 {
        '7'
    } else if d == 8 {
        '8'
    } else {
        '9'
    }
}

/// The decimal numeral of `n`.
pub open spec fn digits(n: nat) -> Seq<char>
    decreases n,
{
    if n < 10 {
        seq![digit_char(n as int)]
    } else {
        digits(n / 10).push(digit_char(n as int % 10))
    }
}

fn digit_of(d: usize) -> (c: char)
    requires
        d < 10,
    ensures
        c == digit_char(d as int),
{
    if d == 0 {
        '0'
    } else if d == 1 {
        '1'
    } else if d == 2 {
        '2'
    } else if d == 3 {
        '3'
    } else if d == 4 {
        '4'
    } else if d == 5 {
        '5'
    } else if d == 6 {
        '6'
    } else if d == 7 {
        '7'
    } else if d == 8 {
        '8'
    } else {
        '9'
    }
}

fn push_digits(out: &mut Vec<char>, n: usize)
    ensures
        final(out)@ == old(out)@ + digits(n as nat),
    decreases n,
{
    if n < 10 {
        out.push(digit_of(n));
        assert(out@ =~= old(out)@ + digits(n as nat));
    } else {
        push_digits(out, n / 10);
        out.push(digit_of(n % 10));
        assert(out@ =~= old(out)@ + digits(n as nat));
    }
}

pub open spec fn letter(c: Color, up: char, low: char) -> Seq<char> {
    match c {
        Color::White => seq![up],
        Color::Black => seq![low],
    }
}

pub open spec fn bus_word(c: Color) -> Seq<char> {
    match c {
        Color::White => "BUS"@,
        Color::Black => "bus"@,
    }
}

/// A piece's notation token: one letter (upper case white) for stateless pieces;
/// `S(PHASE=n)` for a Skibidi past phase 1; `G(H=f-r[,P=cargo])` for a Goblin;
/// `BUS(P=(a,b,...))` for a carrier with passengers.
pub open spec fn piece_sym(p: PieceModel) -> Seq<char>
    decreases p, 0int,
{
    match p {
        PieceModel::Pawn(c) => letter(c, 'P', 'p'),
        PieceModel::Rook(c) => letter(c, 'R', 'r'),
        PieceModel::Knight(c) => letter(c, 'N', 'n'),
        PieceModel::Bishop(c) => letter(c, 'B', 'b'),
        PieceModel::Queen(c) => letter(c, 'Q', 'q'),
        PieceModel::King(c) => letter(c, 'K', 'k'),
        PieceModel::Monkey(c) => letter(c, 'M', 'm'),
        PieceModel::Skibidi { color, phase } => letter(color, 'S', 's') + (if phase > 1 {
            "(PHASE="@ + digits(phase as nat) + ")"@
        } else {
            seq![]
        }),
        PieceModel::Goblin { color, cargo, home } => letter(color, 'G', 'g') + "(H="@ + digits(
            home.file as nat,
        ) + "-"@ + digits(home.rank as nat) + (match cargo {
            None => Seq::<char>::empty(),
            Some(c) => ",P="@ + piece_sym(*c),
        }) + ")"@,
        PieceModel::Bus { color, passengers } => bus_word(color) + (if passengers.len() > 0 {
            "(P=("@ + sym_list(passengers, 0) + "))"@
        } else {
            seq![]
        }),
    }
}

/// The tokens of the pieces from index `i` on, separated by commas.
pub open spec fn sym_list(ps: Seq<PieceModel>, i: int) -> Seq<char>
    decreases ps, ps.len() - i,
{
    if i < 0 || i >= ps.len() {
        seq![]
    } else {
        piece_sym(ps[i]) + if i + 1 < ps.len() {
            seq![','] + sym_list(ps, i + 1)
        } else {
            seq![]
        }
    }
}

fn push_letter(out: &mut Vec<char>, c: Color, up: char, low: char)
    ensures
        final(out)@ == old(out)@ + letter(c, up, low),
{
    match c {
        Color::White => out.push(up),
        Color::Black => out.push(low),
    }
    assert(out@ =~= old(out)@ + letter(c, up, low));
}

fn push_symbol(p: &PieceType, out: &mut Vec<char>)
    ensures
        final(out)@ == old(out)@ + piece_sym(p@),
    decreases p, 1int,
{
    let ghost start = old(out)@;
    match p {
        PieceType::Pawn(x) => push_letter(out, x.color, 'P', 'p'),
        PieceType::Rook(x) => push_letter(out, x.color, 'R', 'r'),
        PieceType::Knight(x) => push_letter(out, x.color, 'N', 'n'),
        PieceType::Bishop(x) => push_letter(out, x.color, 'B', 'b'),
        PieceType::Queen(x) => push_letter(out, x.color, 'Q', 'q'),
        PieceType::King(x) => push_letter(out, x.color, 'K', 'k'),
        PieceType::Monkey(x) => push_letter(out, x.color, 'M', 'm'),
        PieceType::Skibidi(s) => {
            push_letter(out, s.color, 'S', 's');
            if s.phase > 1 {
                push_lit(out, "(PHASE=");
                push_digits(out, s.phase as usize);
                push_lit(out, ")");
            }
            assert(out@ =~= start + piece_sym(p@));
        },
        PieceType::Goblin(_) => push_goblin_symbol(p, out),
        PieceType::Bus(_) => push_bus_symbol(p, out),
    }
}

fn push_goblin_symbol(p: &PieceType, out: &mut Vec<char>)
    requires
        *p is Goblin,
    ensures
        final(out)@ == old(out)@ + piece_sym(p@),
    decreases p, 0int,
{
    let ghost start = old(out)@;
    if let PieceType::Goblin(g) = p {
        push_letter(out, g.color, 'G', 'g');
        push_lit(out, "(H=");
        push_digits(out, g.home_square.file as usize);
        push_lit(out, "-");
        push_digits(out, g.home_square.rank as usize);
        let ghost mid = out@;
        match &g.state {
            GoblinState::Free => {
                assert(out@ =~= mid + Seq::<char>::empty());
            },
            GoblinState::Kidnapping { piece } => {
                push_lit(out, ",P=");
                push_symbol(&**piece, out);
                assert(out@ =~= mid + (",P="@ + piece_sym(piece@)));
            },
        }
        push_lit(out, ")");
        assert(out@ =~= start + piece_sym(p@));
    }
}

fn push_bus_symbol(p: &PieceType, out: &mut Vec<char>)
    requires
        *p is Bus,
    ensures
        final(out)@ == old(out)@ + piece_sym(p@),
    decreases p, 0int,
{
    let ghost start = old(out)@;
    if let PieceType::Bus(b) = p {
        match b.color {
            Color::White => push_lit(out, "BUS"),
            Color::Black => push_lit(out, "bus"),
        }
        let ghost ps = p@->passengers;
        let ghost mid = out@;
        if b.pieces.len() > 0 {
            push_lit(out, "(P=(");
            let ghost target = out@ + sym_list(ps, 0);
            let mut i: usize = 0;
            while i < b.pieces.len()
                invariant
                    *p == PieceType::Bus(*b),
                    ps == p@->passengers,
                    ps.len() == b.pieces@.len(),
                    0 < b.pieces@.len(),
                    i <= b.pieces@.len(),
                    i < b.pieces@.len() ==> out@ + sym_list(ps, i as int) == target,
                    i == b.pieces@.len() ==> out@ == target,
                decreases b.pieces@.len() - i,
            {
                let q = &b.pieces[i];
                let ghost before = out@;
                proof {
                    assert(p@->passengers[i as int] == crate::pieces::piece_model(b.pieces@[i as int]));
                    assert(decreases_to!(b.pieces => b.pieces@));
                    assert(decreases_to!(b.pieces@ => b.pieces@[i as int]));
                    assert(decreases_to!(*p => *q));
                }
                push_symbol(q, out);
                if i + 1 < b.pieces.len() {
                    out.push(',');
                    assert(out@ + sym_list(ps, i + 1) =~= before + sym_list(ps, i as int));
                } else {
                    assert(out@ =~= before + sym_list(ps, i as int));
                }
                i += 1;
            }
            push_lit(out, "))");
        } else {
            assert(out@ =~= mid + Seq::<char>::empty());
        }
        assert(out@ =~= start + piece_sym(p@));
    }
}

impl PieceType {
    /// The piece's notation token.
    pub fn symbol(&self) -> (r: String)
        ensures
            r@ == piece_sym(self@),
    {
        let mut out: Vec<char> = Vec::new();
        push_symbol(self, &mut out);
        assert(out@ =~= piece_sym(self@));
        chars_to_string(&out)
    }
}

impl PieceKind {
    /// The piece's notation letter.
    pub fn symbol(&self) -> (r: String)
        ensures
            r@ == piece_sym(self.spec_piece_type()@),
    {
        let p: PieceType = PieceType::from(*self);
        p.symbol()
    }

    /// The standard piece a letter names: upper case white, lower case black.
    pub fn symbol_to_piece(symbol: char) -> (r: Option<PieceKind>)
        ensures
            r is Some <==> seq!['P', 'R', 'N', 'B', 'Q', 'K', 'p', 'r', 'n', 'b', 'q', 'k'].contains(symbol),
            r is Some ==> piece_sym(r->0.spec_piece_type()@) == seq![symbol],
    {
        let r = match symbol {
            'P' => Some(PieceKind::Pawn(crate::pieces::Pawn { color: Color::White })),
            'R' => Some(PieceKind::Rook(crate::pieces::Rook { color: Color::White })),
            'N' => Some(PieceKind::Knight(crate::pieces::Knight { color: Color::White })),
            'B' => Some(PieceKind::Bishop(crate::pieces::Bishop { color: Color::White })),
            'Q' => Some(PieceKind::Queen(crate::pieces::Queen { color: Color::White })),
            'K' => Some(PieceKind::King(crate::pieces::King { color: Color::White })),
            'p' => Some(PieceKind::Pawn(crate::pieces::Pawn { color: Color::Black })),
            'r' => Some(PieceKind::Rook(crate::pieces::Rook { color: Color::Black })),
            'n' => Some(PieceKind::Knight(crate::pieces::Knight { color: Color::Black })),
            'b' => Some(PieceKind::Bishop(crate::pieces::Bishop { color: Color::Black })),
            'q' => Some(PieceKind::Queen(crate::pieces::Queen { color: Color::Black })),
            'k' => Some(PieceKind::King(crate::pieces::King { color: Color::Black })),
            _ => None,
        };
        proof {
            let s = seq!['P', 'R', 'N', 'B', 'Q', 'K', 'p', 'r', 'n', 'b', 'q', 'k'];
            if s.contains(symbol) {
                let k = choose|k: int| 0 <= k < s.len() && s[k] == symbol;
                assert(r is Some);
            } else {
                assert(s[0] != symbol && s[1] != symbol && s[2] != symbol && s[3] != symbol);
            }
            if r is Some {
                assert(piece_sym(r->0.spec_piece_type()@) =~= seq![symbol]);
            }
        }
        r
    }
}

/// The parts joined with `sep` between each two.
pub open spec fn join_with(parts: Seq<Seq<char>>, sep: char) -> Seq<char>
    decreases parts.len(),
{
    if parts.len() == 0 {
        seq![]
    } else if parts.len() == 1 {
        parts[0]
    } else {
        join_with(parts.drop_last(), sep) + seq![sep] + parts.last()
    }
}

proof fn lemma_join_push(parts: Seq<Seq<char>>, sep: char, x: Seq<char>)
    ensures
        join_with(parts.push(x), sep) == if parts.len() == 0 {
            x
        } else {
            join_with(parts, sep) + seq![sep] + x
        },
{
    assert(parts.push(x).drop_last() =~= parts);
}

pub open spec fn piece_text(s: SquareModel) -> Seq<char> {
    match s.piece {
        Some(p) => piece_sym(p),
        None => seq![],
    }
}

pub open spec fn cond_field(c: crate::board::SquareCondition) -> Seq<char> {
    "C="@ + c.spec_as_str()
}

/// The fields of a square's bracketed form: its piece, its terrain, each condition.
pub open spec fn square_fields(s: SquareModel) -> Seq<Seq<char>> {
    (if s.piece is Some {
        seq!["P="@ + piece_text(s)]
    } else {
        seq![]
    }) + (if s.square_type != SquareType::Standard {
        seq!["T="@ + s.square_type.spec_as_str()]
    } else {
        seq![]
    }) + s.conditions.map_values(|c: crate::board::SquareCondition| cond_field(c))
}

pub open spec fn is_plain(s: SquareModel) -> bool {
    s.square_type == SquareType::Standard && s.conditions.len() == 0
}

/// A square's token: the bare letter of a one-letter piece on a plain square, else
/// its fields in brackets.
pub open spec fn sq_sym(s: SquareModel) -> Seq<char> {
    if piece_text(s).len() == 1 && is_plain(s) {
        piece_text(s)
    } else {
        seq!['('] + join_with(square_fields(s), ',') + seq![')']
    }
}

/// A plain square with no piece: written as part of a run of empties.
pub open spec fn is_blank(s: SquareModel) -> bool {
    s.piece is None && is_plain(s)
}

pub open spec fn count_text(k: nat) -> Seq<char> {
    if k > 0 {
        digits(k)
    } else {
        seq![]
    }
}

/// The text of the first `i` squares of a row, and the run of empties still pending.
pub open spec fn row_fold(row: Seq<SquareModel>, i: int) -> (Seq<char>, nat)
    decreases i,
{
    if i <= 0 {
        (seq![], 0)
    } else {
        let prev = row_fold(row, i - 1);
        let s = row[i - 1];
        if is_blank(s) {
            (prev.0, prev.1 + 1)
        } else {
            (prev.0 + count_text(prev.1) + sq_sym(s), 0)
        }
    }
}

pub open spec fn row_sym(row: Seq<SquareModel>) -> Seq<char> {
    let st = row_fold(row, row.len() as int);
    st.0 + count_text(st.1)
}

/// The board's notation: its rows, rank 0 first, joined with `/`.
pub open spec fn board_sym(b: BoardModel) -> Seq<char> {
    join_with(Seq::new(b.grid.len(), |r: int| row_sym(b.grid[r])), '/')
}

fn push_count(out: &mut Vec<char>, k: usize)
    ensures
        final(out)@ == old(out)@ + count_text(k as nat),
{
    if k > 0 {
        push_digits(out, k);
    } else {
        assert(out@ =~= out@ + Seq::<char>::empty());
    }
}

fn square_chars(square: &Square) -> (r: Vec<char>)
    ensures
        r@ == sq_sym(square@),
{
    let ghost s = square@;
    let mut sym: Vec<char> = Vec::new();
    match &square.piece {
        Some(p) => push_symbol(p, &mut sym),
        None => {},
    }
    assert(sym@ =~= piece_text(s));
    let plain = square.square_type == SquareType::Standard && square.conditions.len() == 0;
    if sym.len() == 1 && plain {
        return sym;
    }
    let mut out: Vec<char> = Vec::new();
    out.push('(');
    let ghost mut done: Seq<Seq<char>> = seq![];
    let mut first = true;
    if square.piece.is_some() {
        let mut field: Vec<char> = Vec::new();
        push_lit(&mut field, "P=");
        push_all(&mut field, &sym);
        push_all(&mut out, &field);
        proof {
            lemma_join_push(done, ',', field@);
            assert(out@ =~= seq!['('] + join_with(done.push(field@), ','));
            done = done.push(field@);
        }
        first = false;
    }
    if square.square_type != SquareType::Standard {
        let mut field: Vec<char> = Vec::new();
        push_lit(&mut field, "T=");
        push_lit(&mut field, square.square_type.as_str());
        if !first {
            out.push(',');
        }
        push_all(&mut out, &field);
        proof {
            lemma_join_push(done, ',', field@);
            assert(out@ =~= seq!['('] + join_with(done.push(field@), ','));
            done = done.push(field@);
        }
        first = false;
    }
    let ghost head = done;
    assert(head =~= (if s.piece is Some {
        seq!["P="@ + piece_text(s)]
    } else {
        Seq::<Seq<char>>::empty()
    }) + (if s.square_type != SquareType::Standard {
        seq!["T="@ + s.square_type.spec_as_str()]
    } else {
        Seq::<Seq<char>>::empty()
    }));
    let mut i: usize = 0;
    while i < square.conditions.len()
        invariant
            s == square@,
            i <= square.conditions@.len(),
            done == head + s.conditions.take(i as int).map_values(
                |c: crate::board::SquareCondition| cond_field(c),
            ),
            first == (done.len() == 0),
            out@ == seq!['('] + join_with(done, ','),
        decreases square.conditions@.len() - i,
    {
        let mut field: Vec<char> = Vec::new();
        push_lit(&mut field, "C=");
        push_lit(&mut field, square.conditions[i].as_str());
        if !first {
            out.push(',');
        }
        push_all(&mut out, &field);
        proof {
            lemma_join_push(done, ',', field@);
            assert(out@ =~= seq!['('] + join_with(done.push(field@), ','));
            done = done.push(field@);
            assert(s.conditions.take(i + 1).map_values(
                |c: crate::board::SquareCondition| cond_field(c),
            ) =~= s.conditions.take(i as int).map_values(
                |c: crate::board::SquareCondition| cond_field(c),
            ).push(cond_field(s.conditions[i as int])));
            assert(done =~= head + s.conditions.take(i + 1).map_values(
                |c: crate::board::SquareCondition| cond_field(c),
            ));
        }
        first = false;
        i += 1;
    }
    assert(s.conditions.take(s.conditions.len() as int) =~= s.conditions);
    assert(done =~= square_fields(s));
    out.push(')');
    assert(out@ =~= sq_sym(s));
    out
}

/// The token of one square.
pub fn square_to_fen(square: &Square) -> (r: String)
    ensures
        r@ == sq_sym(square@),
{
    let v = square_chars(square);
    chars_to_string(&v)
}

fn row_chars(row: &Vec<Square>) -> (r: Vec<char>)
    ensures
        r@ == row_sym(crate::board::row_model(row@)),
{
    let ghost rm = crate::board::row_model(row@);
    let mut out: Vec<char> = Vec::new();
    let mut empty_count: usize = 0;
    let mut i: usize = 0;
    while i < row.len()
        invariant
            rm == crate::board::row_model(row@),
            i <= row@.len(),
            empty_count <= i,
            (out@, empty_count as nat) == row_fold(rm, i as int),
        decreases row@.len() - i,
    {
        let sq = &row[i];
        assert(rm[i as int] == sq@);
        if sq.piece.is_none() && sq.square_type == SquareType::Standard && sq.conditions.len() == 0 {
            empty_count += 1;
        } else {
            push_count(&mut out, empty_count);
            empty_count = 0;
            let t = square_chars(sq);
            push_all(&mut out, &t);
        }
        i += 1;
    }
    push_count(&mut out, empty_count);
    out
}

/// Writes the board in the notation: rows joined with `/`, runs of empty plain squares
/// as a count, a one-letter piece on a plain square as its letter, any other square in
/// brackets.
pub fn board_to_fen(board: &Board) -> (r: String)
    ensures
        r@ == board_sym(board@),
{
    let ghost rows = Seq::new(board@.grid.len(), |r: int| row_sym(board@.grid[r]));
    let mut out: Vec<char> = Vec::new();
    let mut i: usize = 0;
    while i < board.grid.len()
        invariant
            i <= board.grid@.len(),
            rows == Seq::new(board@.grid.len(), |r: int| row_sym(board@.grid[r])),
            out@ == join_with(rows.take(i as int), '/'),
        decreases board.grid@.len() - i,
    {
        let t = row_chars(&board.grid[i]);
        if i > 0 {
            out.push('/');
        }
        push_all(&mut out, &t);
        proof {
            assert(rows.take(i + 1) =~= rows.take(i as int).push(rows[i as int]));
            lemma_join_push(rows.take(i as int), '/', rows[i as int]);
            assert(out@ =~= join_with(rows.take(i + 1), '/'));
        }
        i += 1;
    }
    assert(rows.take(rows.len() as int) =~= rows);
    chars_to_string(&out)
}

} // verus!
