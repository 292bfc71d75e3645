//! Properties of move generation and execution across calls.

use vstd::prelude::*;

use crate::board::{BoardModel, Coord, GameMove, MoveType, SquareCondition};
use crate::execute::{
    apply_move, board_piece, covered, effects, lemma_place_frame, place, raised_phase, recalc,
    strip_rot,
};
use crate::movegen::{board_moves, chain, chain_fuel, in_carrier, initial, own_moves, piece_moves, ring};
use crate::board::coord_at;
use crate::pieces::{Color, PieceModel};

verus! {

broadcast use vstd::seq::group_seq_axioms;

/// A piece standing on a Frozen or Brainrot square has no legal move.
pub proof fn lemma_held_square_has_no_moves(b: BoardModel, from: Coord)
    requires
        b.on_board(from.file as int, from.rank as int),
        b.sq(from.file as int, from.rank as int).conditions.contains(SquareCondition::Frozen)
            || b.sq(from.file as int, from.rank as int).conditions.contains(
            SquareCondition::Brainrot,
        ),
    ensures
        board_moves(b, from) == Seq::<GameMove>::empty(),
{
}

/// Recomputing Brainrot moves no piece and keeps the board's shape.
pub proof fn lemma_recalc_keeps_pieces(b: BoardModel, c: Coord)
    ensures
        recalc(b).on_board(c.file as int, c.rank as int) == b.on_board(c.file as int, c.rank as int),
        board_piece(recalc(b), c) == board_piece(b, c),
{
}

/// A phase shift raises a Skibidi's phase by one, up to the fourth, and leaves it in
/// place; after the whole move (effects and Brainrot included) the raised Skibidi
/// stands on its square.
pub proof fn lemma_phase_shift_raises(b: BoardModel, from: Coord, color: Color, phase: u8)
    requires
        board_piece(b, from) == Some(PieceModel::Skibidi { color, phase }),
    ensures
        raised_phase(phase) == if phase < 4 {
            phase + 1
        } else {
            phase as int
        },
        apply_move(b, GameMove { from, move_type: MoveType::PhaseShift }) is Ok,
        board_piece(
            recalc(
                effects(
                    b,
                    apply_move(b, GameMove { from, move_type: MoveType::PhaseShift })->Ok_0,
                    GameMove { from, move_type: MoveType::PhaseShift },
                ),
            ),
            from,
        ) == Some(PieceModel::Skibidi { color, phase: raised_phase(phase) }),
{
    let m = GameMove { from, move_type: MoveType::PhaseShift };
    let sk = PieceModel::Skibidi { color, phase: raised_phase(phase) };
    let b1 = place(b, from, Some(sk));
    assert(apply_move(b, m) == Ok::<BoardModel, crate::execute::MoveError>(b1));
    lemma_place_frame(b, from, Some(sk), from);
    assert(effects(b, b1, m) == b1);
    lemma_recalc_keeps_pieces(b1, from);
}

/// Removing Brainrot keeps every other condition and leaves no Brainrot.
pub proof fn lemma_strip_rot(s: Seq<SquareCondition>)
    ensures
        !strip_rot(s).contains(SquareCondition::Brainrot),
        forall|c: SquareCondition|
            c != SquareCondition::Brainrot ==> (strip_rot(s).contains(c) <==> s.contains(c)),
    decreases s.len(),
{
    if s.len() > 0 {
        lemma_strip_rot(s.drop_last());
        let tail = if s.last() == SquareCondition::Brainrot {
            Seq::<SquareCondition>::empty()
        } else {
            seq![s.last()]
        };
        assert(strip_rot(s) == strip_rot(s.drop_last()) + tail);
        assert forall|c: SquareCondition| (strip_rot(s).contains(c) <==> (strip_rot(
            s.drop_last(),
        ).contains(c) || tail.contains(c))) by {
            if strip_rot(s).contains(c) {
                let k = choose|k: int| 0 <= k < strip_rot(s).len() && strip_rot(s)[k] == c;
                if k >= strip_rot(s.drop_last()).len() {
                    assert(tail[k - strip_rot(s.drop_last()).len()] == c);
                } else {
                    assert(strip_rot(s.drop_last())[k] == c);
                }
            }
            if strip_rot(s.drop_last()).contains(c) {
                let k = choose|k: int|
                    0 <= k < strip_rot(s.drop_last()).len() && strip_rot(s.drop_last())[k] == c;
                assert(strip_rot(s)[k] == c);
            }
            if tail.contains(c) {
                assert(strip_rot(s)[strip_rot(s.drop_last()).len() as int] == c);
            }
        }
        assert forall|c: SquareCondition| (s.contains(c) <==> (s.drop_last().contains(c) || s.last()
            == c)) by {
            if s.contains(c) {
                let k = choose|k: int| 0 <= k < s.len() && s[k] == c;
                if k < s.len() - 1 {
                    assert(s.drop_last()[k] == c);
                }
            }
            if s.drop_last().contains(c) {
                let k = choose|k: int| 0 <= k < s.drop_last().len() && s.drop_last()[k] == c;
                assert(s[k] == c);
            }
            if s.last() == c {
                assert(s[s.len() - 1] == c);
            }
        }
        assert forall|c: SquareCondition| c != SquareCondition::Brainrot implies (tail.contains(c)
            <==> s.last() == c) by {
            if s.last() == c {
                assert(tail[0] == c);
            }
            if tail.contains(c) {
                let k = choose|k: int| 0 <= k < tail.len() && tail[k] == c;
                assert(k == 0);
            }
        }
        if tail.contains(SquareCondition::Brainrot) {
            let k = choose|k: int| 0 <= k < tail.len() && tail[k] == SquareCondition::Brainrot;
            assert(k == 0);
        }
        assert forall|c: SquareCondition| c != SquareCondition::Brainrot implies (strip_rot(
            s,
        ).contains(c) <==> s.contains(c)) by {
            assert(strip_rot(s.drop_last()).contains(c) <==> s.drop_last().contains(c));
            assert(tail.contains(c) <==> s.last() == c);
            assert(strip_rot(s).contains(c) <==> (strip_rot(s.drop_last()).contains(c)
                || tail.contains(c)));
            assert(s.contains(c) <==> (s.drop_last().contains(c) || s.last() == c));
        }
    } else {
        assert(strip_rot(s) =~= Seq::<SquareCondition>::empty());
    }
}

/// After Brainrot is recomputed, a square on the board carries it exactly when a Skibidi
/// covers it, whatever tags the square had before; its other conditions are kept.
pub proof fn lemma_brainrot_exact(b: BoardModel, f: int, r: int)
    requires
        b.on_board(f, r),
    ensures
        recalc(b).sq(f, r).conditions.contains(SquareCondition::Brainrot) <==> covered(
            recalc(b),
            f,
            r,
        ),
        forall|c: SquareCondition|
            c != SquareCondition::Brainrot ==> (recalc(b).sq(f, r).conditions.contains(c)
                <==> b.sq(f, r).conditions.contains(c)),
{
    let s = b.sq(f, r).conditions;
    lemma_strip_rot(s);
    let rb = recalc(b);
    assert(rb.sq(f, r).conditions == strip_rot(s) + if covered(b, f, r) {
        seq![SquareCondition::Brainrot]
    } else {
        Seq::<SquareCondition>::empty()
    });
    assert forall|sf: int, sr: int| #[trigger]
        crate::execute::radiates(rb, sf, sr, f, r) == crate::execute::radiates(
            b,
            sf,
            sr,
            f,
            r,
        ) by {
        if b.on_board(sf, sr) {
            assert(rb.sq(sf, sr).piece == b.sq(sf, sr).piece);
        }
    }
    if covered(rb, f, r) {
        let (sf, sr) = choose|sf: int, sr: int| crate::execute::radiates(rb, sf, sr, f, r);
        assert(crate::execute::radiates(b, sf, sr, f, r));
    }
    if covered(b, f, r) {
        let (sf, sr) = choose|sf: int, sr: int| crate::execute::radiates(b, sf, sr, f, r);
        assert(crate::execute::radiates(rb, sf, sr, f, r));
    }
    assert(covered(rb, f, r) == covered(b, f, r));
    let tail = if covered(b, f, r) {
        seq![SquareCondition::Brainrot]
    } else {
        Seq::<SquareCondition>::empty()
    };
    let all = strip_rot(s) + tail;
    assert forall|c: SquareCondition| (all.contains(c) <==> (strip_rot(s).contains(c)
        || tail.contains(c))) by {
        if all.contains(c) {
            let k = choose|k: int| 0 <= k < all.len() && all[k] == c;
            if k >= strip_rot(s).len() {
                assert(tail[k - strip_rot(s).len()] == c);
            } else {
                assert(strip_rot(s)[k] == c);
            }
        }
        if strip_rot(s).contains(c) {
            let k = choose|k: int| 0 <= k < strip_rot(s).len() && strip_rot(s)[k] == c;
            assert(all[k] == c);
        }
        if tail.contains(c) {
            assert(all[strip_rot(s).len() as int] == c);
        }
    }
    if covered(b, f, r) {
        assert(tail.contains(SquareCondition::Brainrot)) by {
            assert(tail[0] == SquareCondition::Brainrot);
        }
    }
}

/// A carrier's candidate moves are its own steps followed, for a single passenger, by
/// exactly that passenger's legal moves from the carrier's square (on the board where
/// it stands there), each marked as passenger 0 leaving.
pub proof fn lemma_single_passenger_moves(b: BoardModel, from: Coord, color: Color, q: PieceModel)
    requires
        b.on_board(from.file as int, from.rank as int),
        !b.sq(from.file as int, from.rank as int).holds_still(),
    ensures
        initial(b, from, PieceModel::Bus { color, passengers: seq![q] }) == own_moves(
            b,
            from,
            PieceModel::Bus { color, passengers: seq![q] },
        ) + in_carrier(from, 0, piece_moves(place(b, from, Some(q)), from, q)),
{
    let ps = seq![q];
    reveal_with_fuel(crate::movegen::passengers_moves, 2);
    assert(crate::movegen::passengers_moves(b, from, ps, 1) == Seq::<GameMove>::empty());
    assert(crate::movegen::passengers_moves(b, from, ps, 0) == in_carrier(
        from,
        0,
        piece_moves(place(b, from, Some(q)), from, q),
    ) + Seq::<GameMove>::empty());
    assert(in_carrier(from, 0, piece_moves(place(b, from, Some(q)), from, q))
        + Seq::<GameMove>::empty() =~= in_carrier(
        from,
        0,
        piece_moves(place(b, from, Some(q)), from, q),
    ));
}

/// Where a step or jump move lands.
pub open spec fn landing_square(m: GameMove) -> Coord {
    match m.move_type {
        MoveType::MoveTo(c) => c,
        _ => Coord { file: 0, rank: 0 },
    }
}

pub open spec fn landings(ms: Seq<GameMove>) -> Seq<Coord> {
    ms.map_values(|m: GameMove| landing_square(m))
}

/// A chain search adds to the visited list exactly the squares it lands on, in order;
/// a visited list without repeats stays without repeats, so no square is landed on twice
/// and none that was already visited.
pub proof fn lemma_chain_lands_once(
    b: BoardModel,
    color: Color,
    origin: Coord,
    cur: Coord,
    visited: Seq<Coord>,
    dir: int,
    fuel: nat,
)
    requires
        visited.no_duplicates(),
    ensures
        chain(b, color, origin, cur, visited, dir, fuel).1 == visited + landings(
            chain(b, color, origin, cur, visited, dir, fuel).0,
        ),
        chain(b, color, origin, cur, visited, dir, fuel).1.no_duplicates(),
    decreases fuel, 8 - dir,
{
    if dir < 0 || dir >= 8 {
        assert(landings(Seq::<GameMove>::empty()) =~= Seq::<Coord>::empty());
        assert(visited + Seq::<Coord>::empty() =~= visited);
    } else {
        let d = ring(dir);
        let af = cur.file + d.0;
        let ar = cur.rank + d.1;
        let jf = af + d.0;
        let jr = ar + d.1;
        let land = coord_at(jf, jr);
        let mv = crate::movegen::move_to(origin, jf, jr);
        assert(landing_square(mv) == land);
        if b.occupied(af, ar) && b.on_board(jf, jr) && !visited.contains(land) {
            let v1 = visited.push(land);
            assert(v1.no_duplicates()) by {
                assert forall|i: int, j: int| 0 <= i < v1.len() && 0 <= j < v1.len() && i != j implies v1[i]
                    != v1[j] by {
                    if i == visited.len() as int {
                        assert(!visited.contains(land));
                        assert(visited[j] != land);
                    } else if j == visited.len() as int {
                        assert(visited[i] != land);
                    }
                }
            }
            match b.piece_at(jf, jr) {
                None => {
                    let sub = if fuel == 0 {
                        (Seq::<GameMove>::empty(), v1)
                    } else {
                        chain(b, color, origin, land, v1, 0, (fuel - 1) as nat)
                    };
                    if fuel == 0 {
                        assert(landings(Seq::<GameMove>::empty()) =~= Seq::<Coord>::empty());
                        assert(v1 + Seq::<Coord>::empty() =~= v1);
                    } else {
                        lemma_chain_lands_once(b, color, origin, land, v1, 0, (fuel - 1) as nat);
                    }
                    lemma_chain_lands_once(b, color, origin, cur, sub.1, dir + 1, fuel);
                    let rest = chain(b, color, origin, cur, sub.1, dir + 1, fuel);
                    let ms = seq![mv] + sub.0 + rest.0;
                    assert(landings(ms) =~= seq![land] + landings(sub.0) + landings(rest.0));
                    assert(rest.1 =~= visited + landings(ms));
                },
                Some(q) => {
                    if q.color() != color {
                        lemma_chain_lands_once(b, color, origin, cur, v1, dir + 1, fuel);
                        let rest = chain(b, color, origin, cur, v1, dir + 1, fuel);
                        let ms = seq![mv] + rest.0;
                        assert(landings(ms) =~= seq![land] + landings(rest.0));
                        assert(rest.1 =~= visited + landings(ms));
                    } else {
                        lemma_chain_lands_once(b, color, origin, cur, visited, dir + 1, fuel);
                    }
                },
            }
        } else {
            lemma_chain_lands_once(b, color, origin, cur, visited, dir + 1, fuel);
        }
    }
}

/// The chain jumps of a piece at `from` never land on the same square twice.
pub proof fn lemma_chain_jumps_distinct(b: BoardModel, from: Coord, color: Color)
    ensures
        landings(chain(b, color, from, from, seq![], 0, chain_fuel()).0).no_duplicates(),
{
    let e = Seq::<Coord>::empty();
    assert(e.no_duplicates());
    lemma_chain_lands_once(b, color, from, from, e, 0, chain_fuel());
    let r = chain(b, color, from, from, e, 0, chain_fuel());
    assert(e + landings(r.0) =~= landings(r.0));
}

} // verus!
