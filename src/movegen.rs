//! Legal-move generation: sliding, hopping, pawn, chain-jumping and carrier moves.

use vstd::prelude::*;

use crate::board::{coord_at, Board, BoardModel, Coord, Direction, GameMove, MoveType};
use crate::pieces::{piece_model, Color, Goblin, GoblinState, PieceModel, PieceType};

verus! {

broadcast use vstd::std_specs::vec::group_vec_axioms, vstd::seq::group_seq_axioms;

/// Which target squares a fixed hop may land on.
#[derive(Clone, Copy, PartialEq, Eq, Debug, Structural)]
pub enum HopRule {
    /// Any square on the board.
    Any,
    /// Standard terrain with no occupant.
    EmptySquare,
    /// An unoccupied square, or one holding a Skibidi that shows the same phase.
    SkibidiFace(u8),
}

/// The ring of eight neighbours, in the order the stepping pieces scan it.
pub open spec fn ring(i: int) -> Direction {
    if i == 0 {
        (1i8, 0i8)
    } else if i == 1 {
        (1i8, 1i8)
    } else if i == 2 {
        (0i8, 1i8)
    } else if i == 3 {
        (-1i8, 1i8)
    } else if i == 4 {
        (-1i8, 0i8)
    } else if i == 5 {
        (-1i8, -1i8)
    } else if i == 6 {
        (0i8, -1i8)
    } else {
        (1i8, -1i8)
    }
}

pub open spec fn ring_dirs() -> Seq<Direction> {
    seq![(1i8, 0i8), (1i8, 1i8), (0i8, 1i8), (-1i8, 1i8), (-1i8, 0i8), (-1i8, -1i8), (0i8, -1i8), (1i8, -1i8)]
}

pub open spec fn knight_offsets() -> Seq<Direction> {
    seq![(2i8, 1i8), (1i8, 2i8), (-1i8, 2i8), (-2i8, 1i8), (-2i8, -1i8), (-1i8, -2i8), (1i8, -2i8), (2i8, -1i8)]
}

pub open spec fn straight_dirs() -> Seq<Direction> {
    seq![(1i8, 0i8), (-1i8, 0i8), (0i8, 1i8), (0i8, -1i8)]
}

pub open spec fn diagonal_dirs() -> Seq<Direction> {
    seq![(1i8, 1i8), (1i8, -1i8), (-1i8, 1i8), (-1i8, -1i8)]
}

pub open spec fn omni_dirs() -> Seq<Direction> {
    seq![(1i8, 0i8), (-1i8, 0i8), (0i8, 1i8), (0i8, -1i8), (1i8, 1i8), (1i8, -1i8), (-1i8, 1i8), (-1i8, -1i8)]
}

/// A sliding range that never stops a ray before the board's edge or a blocker.
pub open spec fn unbounded() -> int {
    usize::MAX as int
}

pub open spec fn move_to(from: Coord, f: int, r: int) -> GameMove {
    GameMove { from, move_type: MoveType::MoveTo(coord_at(f, r)) }
}

/// The squares a slider reaches along one direction, from its `step`-th square (f, r) on:
/// each square on the board is emitted, and the ray stops after an occupied square or
/// once `range` steps are taken.
pub open spec fn ray(
    b: BoardModel,
    from: Coord,
    d: Direction,
    range: int,
    step: int,
    f: int,
    r: int,
) -> Seq<GameMove>
    decreases 9 - step,
{
    if step < 1 || step > 8 || !b.on_board(f, r) {
        seq![]
    } else if b.occupied(f, r) || step >= range {
        seq![move_to(from, f, r)]
    } else {
        seq![move_to(from, f, r)] + ray(b, from, d, range, step + 1, f + d.0, r + d.1)
    }
}

pub open spec fn full_ray(b: BoardModel, from: Coord, d: Direction, range: int) -> Seq<GameMove> {
    ray(b, from, d, range, 1, from.file + d.0, from.rank + d.1)
}

pub open spec fn glider_parts(b: BoardModel, from: Coord, dirs: Seq<Direction>, range: int) -> Seq<
    Seq<GameMove>,
> {
    Seq::new(dirs.len(), |i: int| full_ray(b, from, dirs[i], range))
}

/// All rays, direction by direction.
pub open spec fn glider_moves(b: BoardModel, from: Coord, dirs: Seq<Direction>, range: int) -> Seq<
    GameMove,
> {
    glider_parts(b, from, dirs, range).flatten()
}

pub open spec fn skibidi_face(phase: u8) -> u8 {
    if phase > 1 {
        phase
    } else {
        1
    }
}

pub open spec fn hop_allowed(b: BoardModel, f: int, r: int, rule: HopRule) -> bool {
    b.on_board(f, r) && match rule {
        HopRule::Any => true,
        HopRule::EmptySquare => b.is_empty_at(f, r),
        HopRule::SkibidiFace(phase) => match b.sq(f, r).piece {
            None => true,
            Some(q) => match q {
                PieceModel::Skibidi { phase: p2, .. } => skibidi_face(p2) == skibidi_face(phase),
                _ => false,
            },
        },
    }
}

pub open spec fn hop(b: BoardModel, from: Coord, d: Direction, rule: HopRule) -> Seq<GameMove> {
    let f = from.file + d.0;
    let r = from.rank + d.1;
    if hop_allowed(b, f, r, rule) {
        seq![move_to(from, f, r)]
    } else {
        seq![]
    }
}

pub open spec fn hop_parts(b: BoardModel, from: Coord, offs: Seq<Direction>, rule: HopRule) -> Seq<
    Seq<GameMove>,
> {
    Seq::new(offs.len(), |i: int| hop(b, from, offs[i], rule))
}

/// One fixed hop per offset, kept where the rule allows the landing square.
pub open spec fn hop_moves(b: BoardModel, from: Coord, offs: Seq<Direction>, rule: HopRule) -> Seq<
    GameMove,
> {
    hop_parts(b, from, offs, rule).flatten()
}

pub open spec fn pawn_dir(c: Color) -> int {
    match c {
        Color::White => -1,
        Color::Black => 1,
    }
}

pub open spec fn pawn_start(c: Color) -> int {
    match c {
        Color::White => 6,
        Color::Black => 1,
    }
}

pub open spec fn pawn_capture(b: BoardModel, from: Coord, c: Color, df: int) -> Seq<GameMove> {
    let f = from.file + df;
    let r = from.rank + pawn_dir(c);
    if b.occupied(f, r) && b.piece_at(f, r)->0.color() != c {
        seq![move_to(from, f, r)]
    } else {
        seq![]
    }
}

/// One step forward onto a vacant square, two from the starting rank, and diagonal captures.
pub open spec fn pawn_moves(b: BoardModel, from: Coord, c: Color) -> Seq<GameMove> {
    let f = from.file as int;
    let r1 = from.rank + pawn_dir(c);
    let r2 = r1 + pawn_dir(c);
    let forward = if b.on_board(f, r1) && b.sq(f, r1).piece is None {
        seq![move_to(from, f, r1)] + if from.rank == pawn_start(c) && b.on_board(f, r2) && b.sq(
            f,
            r2,
        ).piece is None {
            seq![move_to(from, f, r2)]
        } else {
            seq![]
        }
    } else {
        seq![]
    };
    forward + pawn_capture(b, from, c, -1) + pawn_capture(b, from, c, 1)
}

/// The chain search of a jumping piece standing at `origin`, now at `cur`, trying
/// directions from `dir` on: it jumps an adjacent occupied square onto the square
/// beyond, if that square is on the board and not yet visited. An empty landing is
/// emitted and searched further; an opposing piece there is captured and ends the
/// branch. `fuel` bounds the depth of the search. Returns the moves and the grown
/// visited list.
pub open spec fn chain(
    b: BoardModel,
    color: Color,
    origin: Coord,
    cur: Coord,
    visited: Seq<Coord>,
    dir: int,
    fuel: nat,
) -> (Seq<GameMove>, Seq<Coord>)
    decreases fuel, 8 - dir,
{
    if dir < 0 || dir >= 8 {
        (seq![], visited)
    } else {
        let d = ring(dir);
        let af = cur.file + d.0;
        let ar = cur.rank + d.1;
        let jf = af + d.0;
        let jr = ar + d.1;
        let land = coord_at(jf, jr);
        if b.occupied(af, ar) && b.on_board(jf, jr) && !visited.contains(land) {
            match b.piece_at(jf, jr) {
                None => {
                    let v1 = visited.push(land);
                    let sub = if fuel == 0 {
                        (Seq::<GameMove>::empty(), v1)
                    } else {
                        chain(b, color, origin, land, v1, 0, (fuel - 1) as nat)
                    };
                    let rest = chain(b, color, origin, cur, sub.1, dir + 1, fuel);
                    (seq![move_to(origin, jf, jr)] + sub.0 + rest.0, rest.1)
                },
                Some(q) => {
                    if q.color() != color {
                        let rest = chain(b, color, origin, cur, visited.push(land), dir + 1, fuel);
                        (seq![move_to(origin, jf, jr)] + rest.0, rest.1)
                    } else {
                        chain(b, color, origin, cur, visited, dir + 1, fuel)
                    }
                },
            }
        } else {
            chain(b, color, origin, cur, visited, dir + 1, fuel)
        }
    }
}

/// The depth bound of a chain search: more than the board has squares to land on.
pub open spec fn chain_fuel() -> nat {
    64
}

pub open spec fn monkey_moves(b: BoardModel, from: Coord, c: Color) -> Seq<GameMove> {
    hop_moves(b, from, ring_dirs(), HopRule::EmptySquare) + chain(
        b,
        c,
        from,
        from,
        seq![],
        0,
        chain_fuel(),
    ).0
}

/// The moves a piece makes by itself, before filtering; a carrier's passengers excluded.
pub open spec fn own_moves(b: BoardModel, from: Coord, p: PieceModel) -> Seq<GameMove> {
    match p {
        PieceModel::Pawn(c) => pawn_moves(b, from, c),
        PieceModel::Rook(_) => glider_moves(b, from, straight_dirs(), unbounded()),
        PieceModel::Knight(_) => hop_moves(b, from, knight_offsets(), HopRule::Any),
        PieceModel::Bishop(_) => glider_moves(b, from, diagonal_dirs(), unbounded()),
        PieceModel::Queen(_) => glider_moves(b, from, omni_dirs(), unbounded()),
        PieceModel::King(_) => glider_moves(b, from, omni_dirs(), 1),
        PieceModel::Monkey(c) => monkey_moves(b, from, c),
        PieceModel::Goblin { cargo, .. } => match cargo {
            None => glider_moves(b, from, omni_dirs(), unbounded()),
            Some(_) => hop_moves(b, from, ring_dirs(), HopRule::EmptySquare),
        },
        PieceModel::Skibidi { phase, .. } => hop_moves(
            b,
            from,
            ring_dirs(),
            HopRule::SkibidiFace(phase),
        ).push(GameMove { from, move_type: MoveType::PhaseShift }),
        PieceModel::Bus { .. } => hop_moves(b, from, ring_dirs(), HopRule::EmptySquare),
    }
}

/// Where a move ends, if it ends on a square.
pub open spec fn move_target(mt: MoveType) -> Option<Coord>
    decreases mt,
{
    match mt {
        MoveType::MoveTo(c) => Some(c),
        MoveType::MoveIntoCarrier(c) => Some(c),
        MoveType::PhaseShift => None,
        MoveType::PieceInCarrier { move_type, .. } => move_target(*move_type),
    }
}

/// The filter on a candidate of a piece of color `c`: a target off the board or held
/// by a friendly piece drops it, except that a friendly carrier turns it into boarding.
pub open spec fn screen(b: BoardModel, c: Color, m: GameMove) -> Seq<GameMove> {
    match move_target(m.move_type) {
        None => seq![m],
        Some(t) => {
            let f = t.file as int;
            let r = t.rank as int;
            if !b.on_board(f, r) {
                seq![]
            } else {
                match b.sq(f, r).piece {
                    None => seq![m],
                    Some(q) => {
                        if q.can_carry() && q.color() == c {
                            seq![GameMove { from: m.from, move_type: MoveType::MoveIntoCarrier(t) }]
                        } else if q.color() != c {
                            seq![m]
                        } else {
                            seq![]
                        }
                    },
                }
            }
        },
    }
}

pub open spec fn screen_all(b: BoardModel, c: Color, ms: Seq<GameMove>) -> Seq<GameMove> {
    Seq::new(ms.len(), |i: int| screen(b, c, ms[i])).flatten()
}

pub open spec fn in_carrier(from: Coord, i: int, ms: Seq<GameMove>) -> Seq<GameMove> {
    ms.map_values(
        |m: GameMove|
            GameMove {
                from,
                move_type: MoveType::PieceInCarrier {
                    piece_index: i as u8,
                    move_type: Box::new(m.move_type),
                },
            },
    )
}

/// All candidate moves of `p` at `from`: its own, and for a carrier each passenger's
/// filtered moves on the board where that passenger stands in the carrier's place.
pub open spec fn initial(b: BoardModel, from: Coord, p: PieceModel) -> Seq<GameMove>
    decreases p, 0int,
{
    match p {
        PieceModel::Bus { passengers, .. } => own_moves(b, from, p) + passengers_moves(
            b,
            from,
            passengers,
            0,
        ),
        _ => own_moves(b, from, p),
    }
}

/// The moves of the passengers from index `i` on, each made from the carrier's square:
/// filtered on the board where that passenger stands in the carrier's place, and
/// wrapped as leaving the carrier.
pub open spec fn passengers_moves(b: BoardModel, from: Coord, ps: Seq<PieceModel>, i: int) -> Seq<
    GameMove,
>
    decreases ps, ps.len() - i,
{
    if i < 0 || i >= ps.len() {
        seq![]
    } else {
        let f = from.file as int;
        let r = from.rank as int;
        let here = if b.on_board(f, r) && !b.sq(f, r).holds_still() {
            let q = ps[i];
            let b2 = b.with_piece(f, r, Some(q));
            in_carrier(from, i, screen_all(b2, q.color(), initial(b2, from, q)))
        } else {
            seq![]
        };
        here + passengers_moves(b, from, ps, i + 1)
    }
}

/// The legal moves of piece `p` standing at `from`.
pub open spec fn piece_moves(b: BoardModel, from: Coord, p: PieceModel) -> Seq<GameMove> {
    screen_all(b, p.color(), initial(b, from, p))
}

/// The legal moves from a square: none off the board, from a tagged square, or from
/// an empty one.
pub open spec fn board_moves(b: BoardModel, from: Coord) -> Seq<GameMove> {
    let f = from.file as int;
    let r = from.rank as int;
    if !b.on_board(f, r) || b.sq(f, r).holds_still() {
        seq![]
    } else {
        match b.sq(f, r).piece {
            None => seq![],
            Some(p) => piece_moves(b, from, p),
        }
    }
}

pub proof fn lemma_flatten_take_step<A>(parts: Seq<Seq<A>>, i: int)
    requires
        0 <= i < parts.len(),
    ensures
        parts.take(i + 1).flatten() == parts.take(i).flatten() + parts[i],
{
    assert(parts.take(i + 1) =~= parts.take(i).push(parts[i]));
    parts.take(i).lemma_flatten_push(parts[i]);
}

pub proof fn lemma_flatten_take_all<A>(parts: Seq<Seq<A>>)
    ensures
        parts.take(parts.len() as int).flatten() == parts.flatten(),
{
    assert(parts.take(parts.len() as int) =~= parts);
}

fn ring_table() -> (r: Vec<Direction>)
    ensures
        r@ == ring_dirs(),
{
    let r = vec![(1, 0), (1, 1), (0, 1), (-1, 1), (-1, 0), (-1, -1), (0, -1), (1, -1)];
    assert(r@ =~= ring_dirs());
    r
}

fn knight_table() -> (r: Vec<Direction>)
    ensures
        r@ == knight_offsets(),
{
    let r = vec![(2, 1), (1, 2), (-1, 2), (-2, 1), (-2, -1), (-1, -2), (1, -2), (2, -1)];
    assert(r@ =~= knight_offsets());
    r
}

fn straight_table() -> (r: Vec<Direction>)
    ensures
        r@ == straight_dirs(),
{
    let r = vec![(1, 0), (-1, 0), (0, 1), (0, -1)];
    assert(r@ =~= straight_dirs());
    r
}

fn diagonal_table() -> (r: Vec<Direction>)
    ensures
        r@ == diagonal_dirs(),
{
    let r = vec![(1, 1), (1, -1), (-1, 1), (-1, -1)];
    assert(r@ =~= diagonal_dirs());
    r
}

fn omni_table() -> (r: Vec<Direction>)
    ensures
        r@ == omni_dirs(),
{
    let r = vec![(1, 0), (-1, 0), (0, 1), (0, -1), (1, 1), (1, -1), (-1, 1), (-1, -1)];
    assert(r@ =~= omni_dirs());
    r
}

fn push_ray(
    board: &Board,
    from: &Coord,
    d: Direction,
    max_range: usize,
    moves: &mut Vec<GameMove>,
)
    ensures
        final(moves)@ == old(moves)@ + full_ray(board@, *from, d, max_range as int),
{
    let ghost b = board@;
    let ghost target = old(moves)@ + full_ray(b, *from, d, max_range as int);
    let mut step: isize = 1;
    let mut f: isize = from.file as isize + d.0 as isize;
    let mut r: isize = from.rank as isize + d.1 as isize;
    let mut stop = false;
    while step <= 8 && !stop
        invariant
            1 <= step <= 9,
            from.file - 128 * step <= f <= from.file + 127 * step,
            from.rank - 128 * step <= r <= from.rank + 127 * step,
            stop ==> moves@ == target,
            !stop ==> moves@ + ray(b, *from, d, max_range as int, step as int, f as int, r as int)
                == target,
            b == board@,
        decreases 9 - step + (if stop { 0int } else { 1int }),
    {
        if !board.in_bounds(f, r) {
            assert(ray(b, *from, d, max_range as int, step as int, f as int, r as int) =~= Seq::<
                GameMove,
            >::empty());
            assert(moves@ + Seq::<GameMove>::empty() =~= moves@);
            stop = true;
        } else {
            let c = Coord { file: f as u8, rank: r as u8 };
            let ghost before = moves@;
            moves.push(GameMove { from: *from, move_type: MoveType::MoveTo(c) });
            let occupied = board.grid[r as usize][f as usize].piece.is_some();
            assert(occupied == b.occupied(f as int, r as int));
            if occupied || step as usize >= max_range {
                assert(ray(b, *from, d, max_range as int, step as int, f as int, r as int) =~= seq![
                    move_to(*from, f as int, r as int),
                ]);
                assert(before + seq![move_to(*from, f as int, r as int)] =~= moves@);
                stop = true;
            } else {
                assert(before + (seq![move_to(*from, f as int, r as int)] + ray(
                    b,
                    *from,
                    d,
                    max_range as int,
                    step + 1,
                    f + d.0,
                    r + d.1,
                )) =~= moves@ + ray(b, *from, d, max_range as int, step + 1, f + d.0, r + d.1));
                step += 1;
                f += d.0 as isize;
                r += d.1 as isize;
            }
        }
    }
    if !stop {
        assert(moves@ + Seq::<GameMove>::empty() =~= moves@);
    }
}

/// Generate the moves of a slider at `from`: along each direction, each square on the
/// board up to and including the first occupied one, at most `max_range` steps
/// (`usize::MAX`: to the edge).
pub fn generate_glider_moves(
    board: &Board,
    from: &Coord,
    directions: &[Direction],
    max_range: usize,
) -> (r: Vec<GameMove>)
    ensures
        r@ == glider_moves(board@, *from, directions@, max_range as int),
{
    let ghost parts = glider_parts(board@, *from, directions@, max_range as int);
    let mut moves: Vec<GameMove> = Vec::new();
    let mut i: usize = 0;
    while i < directions.len()
        invariant
            i <= directions@.len(),
            parts == glider_parts(board@, *from, directions@, max_range as int),
            moves@ == parts.take(i as int).flatten(),
        decreases directions@.len() - i,
    {
        push_ray(board, from, directions[i], max_range, &mut moves);
        proof {
            lemma_flatten_take_step(parts, i as int);
        }
        i += 1;
    }
    proof {
        lemma_flatten_take_all(parts);
    }
    moves
}

fn hop_allowed_exec(board: &Board, f: isize, r: isize, rule: HopRule) -> (ok: bool)
    ensures
        ok == hop_allowed(board@, f as int, r as int, rule),
{
    if !board.in_bounds(f, r) {
        return false;
    }
    let sq = &board.grid[r as usize][f as usize];
    match rule {
        HopRule::Any => true,
        HopRule::EmptySquare => sq.square_type == crate::board::SquareType::Standard
            && sq.piece.is_none(),
        HopRule::SkibidiFace(phase) => match &sq.piece {
            None => true,
            Some(PieceType::Skibidi(s)) => {
                let a: u8 = if s.phase > 1 {
                    s.phase
                } else {
                    1
                };
                let b: u8 = if phase > 1 {
                    phase
                } else {
                    1
                };
                a == b
            },
            Some(_) => false,
        },
    }
}

fn push_hops(
    board: &Board,
    from: &Coord,
    offs: &Vec<Direction>,
    rule: HopRule,
    moves: &mut Vec<GameMove>,
)
    ensures
        final(moves)@ == old(moves)@ + hop_moves(board@, *from, offs@, rule),
{
    let ghost parts = hop_parts(board@, *from, offs@, rule);
    let ghost start = old(moves)@;
    let mut i: usize = 0;
    while i < offs.len()
        invariant
            i <= offs@.len(),
            parts == hop_parts(board@, *from, offs@, rule),
            moves@ == start + parts.take(i as int).flatten(),
        decreases offs@.len() - i,
    {
        let d = offs[i];
        let f = from.file as isize + d.0 as isize;
        let r = from.rank as isize + d.1 as isize;
        if hop_allowed_exec(board, f, r, rule) {
            moves.push(GameMove { from: *from, move_type: MoveType::MoveTo(Coord { file: f as u8, rank: r as u8 }) });
        }
        proof {
            lemma_flatten_take_step(parts, i as int);
            assert(moves@ =~= start + parts.take(i + 1).flatten());
        }
        i += 1;
    }
    proof {
        lemma_flatten_take_all(parts);
    }
}

fn push_pawn_capture(board: &Board, from: &Coord, c: Color, df: i8, moves: &mut Vec<GameMove>)
    requires
        df == -1 || df == 1,
    ensures
        final(moves)@ == old(moves)@ + pawn_capture(board@, *from, c, df as int),
{
    let dir: isize = match c {
        Color::White => -1,
        Color::Black => 1,
    };
    let f = from.file as isize + df as isize;
    let r = from.rank as isize + dir;
    if board.in_bounds(f, r) {
        match &board.grid[r as usize][f as usize].piece {
            Some(p) => {
                if p.get_color() != c {
                    moves.push(GameMove { from: *from, move_type: MoveType::MoveTo(Coord { file: f as u8, rank: r as u8 }) });
                    return ;
                }
            },
            None => {},
        }
    }
    assert(old(moves)@ + Seq::<GameMove>::empty() =~= old(moves)@);
}

fn push_pawn_moves(board: &Board, from: &Coord, c: Color, moves: &mut Vec<GameMove>)
    ensures
        final(moves)@ == old(moves)@ + pawn_moves(board@, *from, c),
{
    let ghost start = old(moves)@;
    let ghost b = board@;
    let dir: isize = match c {
        Color::White => -1,
        Color::Black => 1,
    };
    let start_rank: u8 = match c {
        Color::White => 6,
        Color::Black => 1,
    };
    let f = from.file as isize;
    let r1 = from.rank as isize + dir;
    let r2 = r1 + dir;
    let ghost fwd: Seq<GameMove> = Seq::empty();
    if board.in_bounds(f, r1) && board.grid[r1 as usize][f as usize].piece.is_none() {
        moves.push(GameMove { from: *from, move_type: MoveType::MoveTo(Coord { file: from.file, rank: r1 as u8 }) });
        proof {
            fwd = seq![move_to(*from, f as int, r1 as int)];
        }
        if from.rank == start_rank && board.in_bounds(f, r2) && board.grid[r2 as usize][f as usize].piece.is_none() {
            moves.push(GameMove { from: *from, move_type: MoveType::MoveTo(Coord { file: from.file, rank: r2 as u8 }) });
            proof {
                fwd = fwd + seq![move_to(*from, f as int, r2 as int)];
            }
        } else {
            proof {
                fwd = fwd + Seq::<GameMove>::empty();
            }
        }
    }
    assert(moves@ =~= start + fwd);
    push_pawn_capture(board, from, c, -1, moves);
    push_pawn_capture(board, from, c, 1, moves);
    assert(moves@ =~= start + pawn_moves(b, *from, c));
}

fn contains_coord(v: &Vec<Coord>, c: Coord) -> (r: bool)
    ensures
        r == v@.contains(c),
{
    let mut i: usize = 0;
    while i < v.len()
        invariant
            i <= v@.len(),
            forall|k: int| 0 <= k < i ==> v@[k] != c,
        decreases v@.len() - i,
    {
        if v[i] == c {
            assert(v@[i as int] == c);
            return true;
        }
        i += 1;
    }
    false
}

fn ring_dir(i: usize) -> (d: Direction)
    requires
        i < 8,
    ensures
        d == ring(i as int),
{
    if i == 0 {
        (1, 0)
    } else if i == 1 {
        (1, 1)
    } else if i == 2 {
        (0, 1)
    } else if i == 3 {
        (-1, 1)
    } else if i == 4 {
        (-1, 0)
    } else if i == 5 {
        (-1, -1)
    } else if i == 6 {
        (0, -1)
    } else {
        (1, -1)
    }
}

fn push_chain(
    board: &Board,
    color: Color,
    origin: &Coord,
    cur: Coord,
    visited: &mut Vec<Coord>,
    moves: &mut Vec<GameMove>,
    dir: usize,
    fuel: usize,
)
    requires
        dir <= 8,
    ensures
        final(moves)@ == old(moves)@ + chain(board@, color, *origin, cur, old(visited)@, dir as int, fuel as nat).0,
        final(visited)@ == chain(board@, color, *origin, cur, old(visited)@, dir as int, fuel as nat).1,
    decreases fuel, 8 - dir,
{
    if dir >= 8 {
        assert(old(moves)@ + Seq::<GameMove>::empty() =~= old(moves)@);
        return ;
    }
    let d = ring_dir(dir);
    let af = cur.file as isize + d.0 as isize;
    let ar = cur.rank as isize + d.1 as isize;
    let jf = af + d.0 as isize;
    let jr = ar + d.1 as isize;
    let land = Coord { file: jf as u8, rank: jr as u8 };
    let adj_occupied = board.in_bounds(af, ar) && board.grid[ar as usize][af as usize].piece.is_some();
    if adj_occupied && board.in_bounds(jf, jr) && !contains_coord(visited, land) {
        let ghost m0 = moves@;
        let ghost v0 = visited@;
        match &board.grid[jr as usize][jf as usize].piece {
            None => {
                moves.push(GameMove { from: *origin, move_type: MoveType::MoveTo(land) });
                visited.push(land);
                let ghost m1 = moves@;
                if fuel > 0 {
                    push_chain(board, color, origin, land, visited, moves, 0, fuel - 1);
                } else {
                    assert(m1 + Seq::<GameMove>::empty() =~= m1);
                }
                let ghost m2 = moves@;
                push_chain(board, color, origin, cur, visited, moves, dir + 1, fuel);
                let ghost sub = if fuel == 0 {
                    (Seq::<GameMove>::empty(), v0.push(land))
                } else {
                    chain(board@, color, *origin, land, v0.push(land), 0, (fuel - 1) as nat)
                };
                assert(moves@ =~= m0 + (seq![move_to(*origin, jf as int, jr as int)] + sub.0 + chain(board@, color, *origin, cur, sub.1, dir + 1, fuel as nat).0));
            },
            Some(q) => {
                if q.get_color() != color {
                    moves.push(GameMove { from: *origin, move_type: MoveType::MoveTo(land) });
                    visited.push(land);
                    push_chain(board, color, origin, cur, visited, moves, dir + 1, fuel);
                    assert(moves@ =~= m0 + (seq![move_to(*origin, jf as int, jr as int)] + chain(board@, color, *origin, cur, v0.push(land), dir + 1, fuel as nat).0));
                } else {
                    push_chain(board, color, origin, cur, visited, moves, dir + 1, fuel);
                }
            },
        }
    } else {
        push_chain(board, color, origin, cur, visited, moves, dir + 1, fuel);
    }
}

fn push_monkey_moves(board: &Board, from: &Coord, c: Color, moves: &mut Vec<GameMove>)
    ensures
        final(moves)@ == old(moves)@ + monkey_moves(board@, *from, c),
{
    let ghost start = old(moves)@;
    let ring = ring_table();
    push_hops(board, from, &ring, HopRule::EmptySquare, moves);
    let mut visited: Vec<Coord> = Vec::new();
    assert(visited@ =~= Seq::<Coord>::empty());
    push_chain(board, c, from, *from, &mut visited, moves, 0, 64);
    assert(moves@ =~= start + monkey_moves(board@, *from, c));
}

fn push_glider(
    board: &Board,
    from: &Coord,
    dirs: Vec<Direction>,
    max_range: usize,
    moves: &mut Vec<GameMove>,
)
    ensures
        final(moves)@ == old(moves)@ + glider_moves(board@, *from, dirs@, max_range as int),
{
    let mut m = generate_glider_moves(board, from, dirs.as_slice(), max_range);
    moves.append(&mut m);
}

fn push_own_moves(piece: &PieceType, board: &Board, from: &Coord, moves: &mut Vec<GameMove>)
    ensures
        final(moves)@ == old(moves)@ + own_moves(board@, *from, piece@),
{
    match piece {
        PieceType::Pawn(p) => push_pawn_moves(board, from, p.color, moves),
        PieceType::Rook(_) => push_glider(board, from, straight_table(), usize::MAX, moves),
        PieceType::Knight(_) => push_hops(board, from, &knight_table(), HopRule::Any, moves),
        PieceType::Bishop(_) => push_glider(board, from, diagonal_table(), usize::MAX, moves),
        PieceType::Queen(_) => push_glider(board, from, omni_table(), usize::MAX, moves),
        PieceType::King(_) => push_glider(board, from, omni_table(), 1, moves),
        PieceType::Monkey(m) => push_monkey_moves(board, from, m.color, moves),
        PieceType::Goblin(g) => {
            let mut m = g.generate_goblin_base_moves(board, *from);
            moves.append(&mut m);
        },
        PieceType::Skibidi(s) => {
            push_hops(board, from, &ring_table(), HopRule::SkibidiFace(s.phase), moves);
            moves.push(GameMove { from: *from, move_type: MoveType::PhaseShift });
        },
        PieceType::Bus(_) => push_hops(board, from, &ring_table(), HopRule::EmptySquare, moves),
    }
}

impl Goblin {
    /// A free Goblin slides like a queen.
    pub fn generate_goblin_free_moves(&self, board: &Board, from: Coord) -> (r: Vec<GameMove>)
        ensures
            r@ == glider_moves(board@, from, omni_dirs(), unbounded()),
    {
        let dirs = omni_table();
        generate_glider_moves(board, &from, dirs.as_slice(), usize::MAX)
    }

    /// A kidnapping Goblin steps to an adjacent empty square.
    pub fn generate_goblin_kidnapping_moves(&self, board: &Board, from: Coord) -> (r: Vec<
        GameMove,
    >)
        ensures
            r@ == hop_moves(board@, from, ring_dirs(), HopRule::EmptySquare),
    {
        let mut moves: Vec<GameMove> = Vec::new();
        push_hops(board, &from, &ring_table(), HopRule::EmptySquare, &mut moves);
        assert(moves@ =~= hop_moves(board@, from, ring_dirs(), HopRule::EmptySquare));
        moves
    }

    pub fn generate_goblin_base_moves(&self, board: &Board, from: Coord) -> (r: Vec<GameMove>)
        ensures
            r@ == own_moves(board@, from, PieceType::Goblin(*self)@),
    {
        match &self.state {
            GoblinState::Free => self.generate_goblin_free_moves(board, from),
            GoblinState::Kidnapping { .. } => self.generate_goblin_kidnapping_moves(board, from),
        }
    }
}

fn screen_move(board: &Board, c: Color, m: GameMove, out: &mut Vec<GameMove>)
    ensures
        final(out)@ == old(out)@ + screen(board@, c, m),
{
    match target_of(&m.move_type) {
        None => {
            out.push(m);
        },
        Some(t) => {
            match board.get_square_at(&t) {
                None => {
                    assert(old(out)@ + Seq::<GameMove>::empty() =~= old(out)@);
                },
                Some(sq) => {
                    match &sq.piece {
                        None => {
                            out.push(m);
                        },
                        Some(q) => {
                            if q.can_carry_piece() && q.get_color() == c {
                                out.push(GameMove { from: m.from, move_type: MoveType::MoveIntoCarrier(t) });
                            } else if q.get_color() != c {
                                out.push(m);
                            } else {
                                assert(old(out)@ + Seq::<GameMove>::empty() =~= old(out)@);
                            }
                        },
                    }
                },
            }
        },
    }
}

/// Where a move ends, if it ends on a square.
pub fn target_of(mt: &MoveType) -> (r: Option<Coord>)
    ensures
        r == move_target(*mt),
    decreases mt,
{
    match mt {
        MoveType::MoveTo(c) => Some(*c),
        MoveType::MoveIntoCarrier(c) => Some(*c),
        MoveType::PhaseShift => None,
        MoveType::PieceInCarrier { move_type, .. } => target_of(&**move_type),
    }
}

fn screen_moves(board: &Board, c: Color, ms: &Vec<GameMove>) -> (r: Vec<GameMove>)
    ensures
        r@ == screen_all(board@, c, ms@),
{
    let ghost parts = Seq::new(ms@.len(), |i: int| screen(board@, c, ms@[i]));
    let mut out: Vec<GameMove> = Vec::new();
    let mut i: usize = 0;
    while i < ms.len()
        invariant
            i <= ms@.len(),
            parts == Seq::new(ms@.len(), |i: int| screen(board@, c, ms@[i])),
            out@ == parts.take(i as int).flatten(),
        decreases ms@.len() - i,
    {
        let m = ms[i].clone();
        screen_move(board, c, m, &mut out);
        proof {
            lemma_flatten_take_step(parts, i as int);
        }
        i += 1;
    }
    proof {
        lemma_flatten_take_all(parts);
    }
    out
}

impl PieceType {
    /// The legal moves of this piece standing at `from`: its candidate moves, with targets
    /// off the board or held by a friendly piece dropped, and a friendly carrier's square
    /// turned into boarding.
    pub fn get_moves(&self, board: &Board, from: &Coord) -> (r: Vec<GameMove>)
        ensures
            r@ == piece_moves(board@, *from, self@),
        decreases self, 1int,
    {
        let cands = self.initial_moves(board, from);
        screen_moves(board, self.get_color(), &cands)
    }

    /// The candidate moves of this piece standing at `from`, before filtering: its own
    /// moves, and for a carrier each passenger's legal moves made from its square.
    pub fn initial_moves(&self, board: &Board, from: &Coord) -> (r: Vec<GameMove>)
        ensures
            r@ == initial(board@, *from, self@),
        decreases self, 0int,
    {
        let mut cands: Vec<GameMove> = Vec::new();
        push_own_moves(self, board, from, &mut cands);
        if let PieceType::Bus(bus) = self {
            let ghost own = cands@;
            let ghost ps = self@->passengers;
            let ghost target = own + passengers_moves(board@, *from, ps, 0);
            let still = match board.get_square_at(from) {
                Some(sq) => sq.holds_still(),
                None => true,
            };
            let mut i: usize = 0;
            while i < bus.pieces.len()
                invariant
                    *self == PieceType::Bus(*bus),
                    i <= bus.pieces@.len(),
                    ps.len() == bus.pieces@.len(),
                    ps == self@->passengers,
                    cands@ + passengers_moves(board@, *from, ps, i as int) == target,
                    still == !(board@.on_board(from.file as int, from.rank as int) && !board@.sq(
                        from.file as int,
                        from.rank as int,
                    ).holds_still()),
                decreases bus.pieces@.len() - i,
            {
                let q = &bus.pieces[i];
                let ghost before = cands@;
                proof {
                    assert(self@->passengers[i as int] == piece_model(bus.pieces@[i as int]));
                    assert(ps[i as int] == q@);
                }
                if !still {
                    let mut b2 = board.duplicate();
                    b2.set_piece_at(from, q.duplicate());
                    proof {
                        assert(decreases_to!(bus.pieces => bus.pieces@));
                        assert(decreases_to!(bus.pieces@ => bus.pieces@[i as int]));
                        assert(decreases_to!(*self => *q));
                    }
                    let inner = q.get_moves(&b2, from);
                    let mut k: usize = 0;
                    while k < inner.len()
                        invariant
                            k <= inner@.len(),
                            cands@ == before + in_carrier(*from, i as int, inner@.take(k as int)),
                        decreases inner@.len() - k,
                    {
                        let mt = inner[k].move_type.duplicate();
                        cands.push(
                            GameMove {
                                from: *from,
                                move_type: MoveType::PieceInCarrier {
                                    piece_index: #[verifier::truncate]
                                    (i as u8),
                                    move_type: Box::new(mt),
                                },
                            },
                        );
                        k += 1;
                        proof {
                            assert(in_carrier(*from, i as int, inner@.take(k as int)) =~= in_carrier(
                                *from,
                                i as int,
                                inner@.take(k - 1),
                            ).push(cands@.last()));
                        }
                    }
                    proof {
                        assert(inner@.take(inner@.len() as int) =~= inner@);
                        assert(cands@ + passengers_moves(board@, *from, ps, i + 1) =~= before
                            + passengers_moves(board@, *from, ps, i as int));
                    }
                } else {
                    proof {
                        assert(cands@ + passengers_moves(board@, *from, ps, i + 1) =~= before
                            + passengers_moves(board@, *from, ps, i as int));
                    }
                }
                i += 1;
            }
            proof {
                assert(cands@ + Seq::<GameMove>::empty() =~= cands@);
                assert(initial(board@, *from, self@) == own_moves(board@, *from, self@)
                    + passengers_moves(board@, *from, ps, 0));
            }
        } else {
            assert(initial(board@, *from, self@) == own_moves(board@, *from, self@));
        }
        cands
    }
}

impl Board {
    /// All legal moves of the piece at `from`: none from a Frozen or Brainrot square.
    pub fn get_moves(&self, from: &Coord) -> (r: Vec<GameMove>)
        ensures
            r@ == board_moves(self@, *from),
    {
        match self.get_square_at(from) {
            None => Vec::new(),
            Some(sq) => {
                if sq.holds_still() {
                    return Vec::new();
                }
                match &sq.piece {
                    None => Vec::new(),
                    Some(p) => p.get_moves(self, from),
                }
            },
        }
    }

    /// Whether `game_move` is one of the legal moves from its origin.
    pub fn is_valid_move(&self, game_move: &GameMove) -> (r: bool)
        ensures
            r == board_moves(self@, game_move.from).contains(*game_move),
    {
        let moves = self.get_moves(&game_move.from);
        let mut i: usize = 0;
        while i < moves.len()
            invariant
                i <= moves@.len(),
                moves@ == board_moves(self@, game_move.from),
                forall|k: int| 0 <= k < i ==> moves@[k] != *game_move,
            decreases moves@.len() - i,
        {
            if moves[i].same_as(game_move) {
                assert(moves@[i as int] == *game_move);
                return true;
            }
            i += 1;
        }
        false
    }
}

} // verus!
