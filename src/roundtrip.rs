//! Proof that reading a written board gives the board back.

use vstd::prelude::*;

use crate::board::{SquareCondition, SquareModel, SquareType};
use crate::codec::{
    bus_word, sym_list, count_text, cond_field, digit_char, digits, is_blank, join_with, letter, piece_sym, piece_text,
    row_fold, row_sym, sq_sym, square_fields,
};
use crate::decode::{
    digit_val, first_at, is_digit, is_ws, lead_end, match_from, parse_row, parse_square,
    skibidi_from, split_scan, token_end,
    split_step, split_top, square_scan, sym_piece, trail_end, trim, type_of, rows_scan, split_rows,
    decode, default_flags, numeral, all_digits, parse_u8, parse_coord, split_kv, inside, before,
    goblin_scan, skibidi_scan, phase_key, bus_scan, bus_list,
};
use crate::board::BoardModel;
use crate::codec::board_sym;
use crate::pieces::{Color, PieceModel};

verus! {

broadcast use vstd::seq::group_seq_axioms;

pub open spec fn paren_delta(c: char) -> int {
    if c == '(' {
        1
    } else if c == ')' {
        -1
    } else {
        0
    }
}

/// Opening brackets minus closing ones.
pub open spec fn depth(t: Seq<char>) -> int
    decreases t.len(),
{
    if t.len() == 0 {
        0
    } else {
        depth(t.drop_last()) + paren_delta(t.last())
    }
}

/// No prefix closes more brackets than it opens.
pub open spec fn nonneg(t: Seq<char>) -> bool {
    forall|k: int| 0 <= k <= t.len() ==> #[trigger] depth(t.take(k)) >= 0
}

/// Every comma stands inside brackets.
pub open spec fn top_free(t: Seq<char>) -> bool {
    forall|k: int| 0 <= k < t.len() && t[k] == ',' ==> #[trigger] depth(t.take(k)) > 0
}

/// No white space and no row separator.
pub open spec fn quiet(t: Seq<char>) -> bool {
    forall|k: int| 0 <= k < t.len() ==> !is_ws(#[trigger] t[k]) && t[k] != '/'
}

/// A token that splitting at top-level commas keeps whole.
pub open spec fn clean(t: Seq<char>) -> bool {
    t.len() > 0 && nonneg(t) && depth(t) == 0 && top_free(t) && quiet(t)
}

pub open spec fn scan_init() -> (Seq<Seq<char>>, Seq<char>, nat) {
    (seq![], seq![], 0)
}

/// The split state after reading `t` from state `st`.
pub open spec fn scan_seg(st: (Seq<Seq<char>>, Seq<char>, nat), t: Seq<char>) -> (
    Seq<Seq<char>>,
    Seq<char>,
    nat,
)
    decreases t.len(),
{
    if t.len() == 0 {
        st
    } else {
        split_step(scan_seg(st, t.drop_last()), t.last())
    }
}

pub proof fn lemma_split_scan_is_seg(s: Seq<char>, i: int)
    requires
        0 <= i <= s.len(),
    ensures
        split_scan(s, i) == scan_seg(scan_init(), s.take(i)),
    decreases i,
{
    if i > 0 {
        lemma_split_scan_is_seg(s, i - 1);
        assert(s.take(i).drop_last() =~= s.take(i - 1));
    } else {
        assert(s.take(0) =~= Seq::<char>::empty());
    }
}

pub proof fn lemma_seg_concat(st: (Seq<Seq<char>>, Seq<char>, nat), a: Seq<char>, b: Seq<char>)
    ensures
        scan_seg(st, a + b) == scan_seg(scan_seg(st, a), b),
    decreases b.len(),
{
    if b.len() == 0 {
        assert(a + b =~= a);
    } else {
        lemma_seg_concat(st, a, b.drop_last());
        assert((a + b).drop_last() =~= a + b.drop_last());
    }
}

pub proof fn lemma_depth_step(t: Seq<char>, k: int)
    requires
        0 < k <= t.len(),
    ensures
        depth(t.take(k)) == depth(t.take(k - 1)) + paren_delta(t[k - 1]),
{
    assert(t.take(k).drop_last() =~= t.take(k - 1));
}

/// Reading a token with no top-level comma only grows the current part.
pub proof fn lemma_seg_clean(d: Seq<Seq<char>>, t: Seq<char>, k: int)
    requires
        nonneg(t),
        top_free(t),
        0 <= k <= t.len(),
    ensures
        scan_seg((d, seq![], 0), t.take(k)) == (d, t.take(k), depth(t.take(k)) as nat),
    decreases k,
{
    if k > 0 {
        lemma_seg_clean(d, t, k - 1);
        lemma_depth_step(t, k);
        assert(t.take(k).drop_last() =~= t.take(k - 1));
        assert(depth(t.take(k)) >= 0);
        assert(depth(t.take(k - 1)) >= 0);
        let c = t[k - 1];
        if c == ',' {
            assert(depth(t.take(k - 1)) > 0);
        }
        assert(t.take(k - 1).push(c) =~= t.take(k));
    } else {
        assert(t.take(0) =~= Seq::<char>::empty());
        assert(depth(Seq::<char>::empty()) == 0);
    }
}

pub proof fn lemma_trim_quiet(t: Seq<char>)
    requires
        quiet(t),
    ensures
        trim(t) == t,
{
    if t.len() > 0 {
        assert(!is_ws(t[0]));
        assert(!is_ws(t[t.len() - 1]));
    }
    assert(lead_end(t, 0) == 0);
    assert(trail_end(t, t.len() as int, 0) == t.len());
    assert(t.subrange(0, t.len() as int) =~= t);
}

pub proof fn lemma_scan_join(ps: Seq<Seq<char>>)
    requires
        ps.len() >= 1,
        forall|i: int| 0 <= i < ps.len() ==> clean(#[trigger] ps[i]),
    ensures
        scan_seg(scan_init(), join_with(ps, ',')) == (ps.drop_last(), ps.last(), 0nat),
    decreases ps.len(),
{
    let last = ps.last();
    assert(clean(ps[ps.len() - 1]));
    if ps.len() == 1 {
        lemma_seg_clean(seq![], last, last.len() as int);
        assert(last.take(last.len() as int) =~= last);
        assert(ps.drop_last() =~= Seq::<Seq<char>>::empty());
        assert(join_with(ps, ',') == last);
        assert(scan_seg(scan_init(), last) == (Seq::<Seq<char>>::empty(), last, 0nat));
    } else {
        let q = ps.drop_last();
        assert forall|i: int| 0 <= i < q.len() implies clean(#[trigger] q[i]) by {
            assert(q[i] == ps[i]);
        }
        lemma_scan_join(q);
        assert(clean(q.last())) by {
            assert(q.last() == ps[q.len() - 1]);
        }
        let jq = join_with(q, ',');
        assert(join_with(ps, ',') == jq + seq![','] + last);
        lemma_seg_concat(scan_init(), jq + seq![','], last);
        lemma_seg_concat(scan_init(), jq, seq![',']);
        assert(seq![','].drop_last() =~= Seq::<char>::empty());
        lemma_trim_quiet(q.last());
        assert(q.drop_last().push(q.last()) =~= q);
        let st1 = scan_seg(scan_init(), jq);
        assert(st1 == (q.drop_last(), q.last(), 0nat));
        let comma = seq![','];
        let st2 = scan_seg(st1, comma);
        assert(comma.len() == 1);
        assert(comma.last() == ',');
        assert(comma.drop_last().len() == 0);
        assert(scan_seg(st1, comma.drop_last()) == st1);
        assert(st2 == split_step(st1, ','));
        assert(st2 == (q, Seq::<char>::empty(), 0nat));
        lemma_seg_clean(q, last, last.len() as int);
        assert(last.take(last.len() as int) =~= last);
        assert(scan_seg(st2, last) == (q, last, 0nat));
    }
}

/// Splitting comma-joined clean tokens at top-level commas gives the tokens back.
pub proof fn lemma_split_join(ps: Seq<Seq<char>>)
    requires
        forall|i: int| 0 <= i < ps.len() ==> clean(#[trigger] ps[i]),
    ensures
        split_top(join_with(ps, ',')) == ps,
{
    let s = join_with(ps, ',');
    lemma_split_scan_is_seg(s, s.len() as int);
    assert(s.take(s.len() as int) =~= s);
    if ps.len() == 0 {
        assert(s =~= Seq::<char>::empty());
    } else {
        lemma_scan_join(ps);
        assert(clean(ps[ps.len() - 1]));
        lemma_trim_quiet(ps.last());
        assert(ps.drop_last().push(ps.last()) =~= ps);
    }
}

/// Scanning for a closing bracket passes over a segment that never closes more than it
/// opens.
pub proof fn lemma_match_skip(s: Seq<char>, k: int, d: int, n: int, j: int)
    requires
        0 <= k,
        0 <= n,
        k + n <= s.len(),
        d >= 1,
        nonneg(s.subrange(k, k + n)),
        0 <= j <= n,
    ensures
        match_from(s, k, d) == match_from(s, k + j, d + depth(s.subrange(k, k + n).take(j))),
    decreases j,
{
    let body = s.subrange(k, k + n);
    if j == 0 {
        assert(body.take(0) =~= Seq::<char>::empty());
    } else {
        lemma_match_skip(s, k, d, n, j - 1);
        lemma_depth_step(body, j);
        assert(body[j - 1] == s[k + j - 1]);
        assert(depth(body.take(j)) >= 0);
    }
}

/// Scanning for `c` passes over a stretch without it.
pub proof fn lemma_first_at_skip(s: Seq<char>, c: char, i: int, j: int)
    requires
        0 <= i <= j <= s.len(),
        forall|k: int| i <= k < j ==> s[k] != c,
    ensures
        first_at(s, c, i) == first_at(s, c, j),
    decreases j - i,
{
    if i < j {
        lemma_first_at_skip(s, c, i + 1, j);
    }
}

/// The keywords of the notation, spelled out.
pub proof fn lemma_words()
    ensures
        "P="@ == seq!['P', '='],
        "T="@ == seq!['T', '='],
        "C="@ == seq!['C', '='],
        SquareType::Turret.spec_as_str() == seq!['T', 'U', 'R', 'R', 'E', 'T'],
        SquareType::Vent.spec_as_str() == seq!['V', 'E', 'N', 'T'],
        SquareCondition::Frozen.spec_as_str() == seq!['F', 'R', 'O', 'Z', 'E', 'N'],
        SquareCondition::Brainrot.spec_as_str() == seq!['B', 'R', 'A', 'I', 'N', 'R', 'O', 'T'],
{
    reveal_strlit("P=");
    reveal_strlit("T=");
    reveal_strlit("C=");
    reveal_strlit("TURRET");
    reveal_strlit("VENT");
    reveal_strlit("FROZEN");
    reveal_strlit("BRAINROT");
    assert("P="@ =~= seq!['P', '=']);
    assert("T="@ =~= seq!['T', '=']);
    assert("C="@ =~= seq!['C', '=']);
    assert("TURRET"@ =~= seq!['T', 'U', 'R', 'R', 'E', 'T']);
    assert("VENT"@ =~= seq!['V', 'E', 'N', 'T']);
    assert("FROZEN"@ =~= seq!['F', 'R', 'O', 'Z', 'E', 'N']);
    assert("BRAINROT"@ =~= seq!['B', 'R', 'A', 'I', 'N', 'R', 'O', 'T']);
}

/// Characters that neither open, close nor separate anything.
pub open spec fn inert(c: char) -> bool {
    c != '(' && c != ')' && c != ',' && c != '/' && c != '=' && !is_ws(c)
}

pub open spec fn all_inert(t: Seq<char>) -> bool {
    forall|k: int| 0 <= k < t.len() ==> inert(#[trigger] t[k])
}

pub proof fn lemma_inert_depth(t: Seq<char>, k: int)
    requires
        all_inert(t),
        0 <= k <= t.len(),
    ensures
        depth(t.take(k)) == 0,
    decreases k,
{
    if k > 0 {
        lemma_inert_depth(t, k - 1);
        lemma_depth_step(t, k);
        assert(inert(t[k - 1]));
    } else {
        assert(t.take(0) =~= Seq::<char>::empty());
    }
}

/// `key=value` with an inert key letter and a clean value is a clean token.
pub proof fn lemma_field_clean(x: char, v: Seq<char>)
    requires
        inert(x),
        clean(v),
    ensures
        clean(seq![x, '='] + v),
        first_at(seq![x, '='] + v, '=', 0) == Some(1int),
        trim((seq![x, '='] + v).take(1)) == seq![x],
        trim((seq![x, '='] + v).skip(2)) == v,
{
    let key = seq![x, '='];
    let f = key + v;
    assert forall|k: int| 0 <= k <= key.len() implies #[trigger] depth(key.take(k)) == 0 by {
        lemma_paren_free_depth(key, k);
    }
    assert(key.take(2) =~= key);
    assert(nonneg(key));
    assert(top_free(key));
    assert(quiet(key));
    lemma_nonneg_concat(key, v);
    lemma_top_free_concat(key, v);
    lemma_quiet_concat(key, v);
    assert(f.take(1) =~= seq![x]);
    assert(f.skip(2) =~= v);
    lemma_trim_quiet(seq![x]);
    lemma_trim_quiet(v);
    assert(first_at(f, '=', 1) == Some(1int));
}

pub proof fn lemma_paren_free_depth(t: Seq<char>, k: int)
    requires
        forall|j: int| 0 <= j < t.len() ==> t[j] != '(' && t[j] != ')',
        0 <= k <= t.len(),
    ensures
        depth(t.take(k)) == 0,
    decreases k,
{
    if k > 0 {
        lemma_paren_free_depth(t, k - 1);
        lemma_depth_step(t, k);
    } else {
        assert(t.take(0) =~= Seq::<char>::empty());
    }
}

/// A one-letter piece: standard pieces, the Monkey, and a Skibidi in phase 1.
pub open spec fn letter_piece(p: PieceModel) -> bool {
    match p {
        PieceModel::Skibidi { phase, .. } => phase == 1,
        PieceModel::Goblin { .. } => false,
        PieceModel::Bus { .. } => false,
        _ => true,
    }
}

pub open spec fn is_letter(c: char) -> bool {
    ('A' <= c <= 'Z') || ('a' <= c <= 'z')
}

pub proof fn lemma_letter_round_trip(p: PieceModel)
    requires
        letter_piece(p),
    ensures
        piece_sym(p).len() == 1,
        is_letter(piece_sym(p)[0]),
        inert(piece_sym(p)[0]),
        sym_piece(piece_sym(p)) == Some(p),
{
    let t = piece_sym(p);
    assert(t.len() == 1);
    assert(first_at(t, '(', 1) == None::<int>);
    assert(first_at(t, '(', 0) == None::<int>);
    assert(crate::decode::before(t, '(') == t);
    match p {
        PieceModel::Skibidi { color, phase } => {
            assert(t == letter(color, 'S', 's') + Seq::<char>::empty());
            assert(crate::decode::inside(t) == Some(None::<Seq<char>>));
            assert(skibidi_from(t) == Some(p));
        },
        _ => {},
    }
}

/// The pieces whose token reads back: every Skibidi in it, carried ones included, has
/// a phase of at least 1.
pub open spec fn valid_piece(p: PieceModel) -> bool
    decreases p,
{
    match p {
        PieceModel::Skibidi { phase, .. } => phase >= 1,
        PieceModel::Goblin { cargo, .. } => match cargo {
            Some(c) => valid_piece(*c),
            None => true,
        },
        PieceModel::Bus { passengers, .. } => forall|i: int|
            0 <= i < passengers.len() ==> valid_piece(#[trigger] passengers[i]),
        _ => true,
    }
}

/// A valid piece's token is clean, starts with a letter, and reads back as the piece.
pub proof fn lemma_piece_round_trip(p: PieceModel)
    requires
        valid_piece(p),
    ensures
        clean(piece_sym(p)),
        is_letter(piece_sym(p)[0]),
        sym_piece(piece_sym(p)) == Some(p),
    decreases p,
{
    match p {
        PieceModel::Skibidi { color, phase } => lemma_skibidi_round_trip(color, phase),
        PieceModel::Goblin { color, home, cargo } => match cargo {
            None => lemma_goblin_free_round_trip(color, home),
            Some(c) => {
                lemma_piece_round_trip(*c);
                lemma_goblin_kidnap_round_trip(color, *c, home);
            },
        },
        PieceModel::Bus { color, passengers } => {
            assert forall|i: int| 0 <= i < passengers.len() implies clean(
                piece_sym(#[trigger] passengers[i]),
            ) && sym_piece(piece_sym(passengers[i])) == Some(passengers[i]) by {
                lemma_piece_round_trip(passengers[i]);
            }
            lemma_bus_round_trip(color, passengers);
        },
        _ => {
            lemma_letter_round_trip(p);
            lemma_inert_clean(piece_sym(p));
        },
    }
}

/// The squares whose pieces, if any, are valid.
pub open spec fn valid_square(s: SquareModel) -> bool {
    match s.piece {
        Some(p) => valid_piece(p),
        None => true,
    }
}

pub proof fn lemma_fields_clean(s: SquareModel)
    requires
        valid_square(s),
    ensures
        forall|i: int| 0 <= i < square_fields(s).len() ==> clean(#[trigger] square_fields(s)[i]),
{
    lemma_words();
    let fs = square_fields(s);
    let head = (if s.piece is Some {
        seq!["P="@ + piece_text(s)]
    } else {
        Seq::<Seq<char>>::empty()
    }) + (if s.square_type != SquareType::Standard {
        seq!["T="@ + s.square_type.spec_as_str()]
    } else {
        Seq::<Seq<char>>::empty()
    });
    assert(fs == head + s.conditions.map_values(|c: SquareCondition| cond_field(c)));
    assert forall|i: int| 0 <= i < fs.len() implies clean(#[trigger] fs[i]) by {
        if i < head.len() {
            if s.piece is Some && i == 0 {
                lemma_piece_round_trip(s.piece->0);
                let v = piece_text(s);
                lemma_field_clean('P', v);
                assert(fs[i] == seq!['P', '='] + v);
            } else {
                let v = s.square_type.spec_as_str();
                assert(all_inert(v));
                lemma_inert_clean(v);
                lemma_field_clean('T', v);
                assert(fs[i] == seq!['T', '='] + v);
            }
        } else {
            let c = s.conditions[i - head.len()];
            let v = c.spec_as_str();
            assert(all_inert(v));
            lemma_inert_clean(v);
            lemma_field_clean('C', v);
            assert(fs[i] == seq!['C', '='] + v);
        }
    }
}

/// Reading a field `x=v` as the square reader does.
pub proof fn lemma_field_read(x: char, v: Seq<char>, acc: SquareModel, fields: Seq<Seq<char>>, n: int)
    requires
        inert(x),
        clean(v),
        1 <= n <= fields.len(),
        fields[n - 1] == seq![x, '='] + v,
        square_scan(fields, n - 1) == acc,
    ensures
        square_scan(fields, n) == if x == 'P' {
            SquareModel { piece: sym_piece(v), ..acc }
        } else if x == 'T' {
            SquareModel { square_type: type_of(v), ..acc }
        } else if x == 'C' {
            if v == SquareCondition::Frozen.spec_as_str() {
                SquareModel { conditions: acc.conditions.push(SquareCondition::Frozen), ..acc }
            } else if v == SquareCondition::Brainrot.spec_as_str() {
                SquareModel { conditions: acc.conditions.push(SquareCondition::Brainrot), ..acc }
            } else {
                acc
            }
        } else {
            acc
        },
{
    lemma_field_clean(x, v);
    assert(seq![x] == seq!['P'] <==> x == 'P') by {
        if seq![x] == seq!['P'] {
            assert(seq![x][0] == seq!['P'][0]);
        }
    }
    assert(seq![x] == seq!['T'] <==> x == 'T') by {
        if seq![x] == seq!['T'] {
            assert(seq![x][0] == seq!['T'][0]);
        }
    }
    assert(seq![x] == seq!['C'] <==> x == 'C') by {
        if seq![x] == seq!['C'] {
            assert(seq![x][0] == seq!['C'][0]);
        }
    }
}

/// A non-blank square with a valid piece, if any, reads back from its token.
pub proof fn lemma_square_round_trip(s: SquareModel)
    requires
        valid_square(s),
        !is_blank(s),
    ensures
        parse_square(sq_sym(s)) == s,
{
    lemma_words();
    let t = sq_sym(s);
    if piece_text(s).len() == 1 && crate::codec::is_plain(s) {
        let p = s.piece->0;
        lemma_piece_round_trip(p);
        assert(t == piece_sym(p));
        assert(t != seq!['(', ')']);
        assert(s.conditions =~= Seq::<SquareCondition>::empty());
    } else {
        let fs = square_fields(s);
        lemma_fields_clean(s);
        let body = join_with(fs, ',');
        lemma_split_join(fs);
        let head = (if s.piece is Some {
            seq!["P="@ + piece_text(s)]
        } else {
            Seq::<Seq<char>>::empty()
        }) + (if s.square_type != SquareType::Standard {
            seq!["T="@ + s.square_type.spec_as_str()]
        } else {
            Seq::<Seq<char>>::empty()
        });
        let conds = s.conditions.map_values(|c: SquareCondition| cond_field(c));
        assert(fs == head + conds);
        assert(fs.len() > 0);
        assert(body.len() > 0) by {
            if fs.len() > 1 {
                assert(body == join_with(fs.drop_last(), ',') + seq![','] + fs.last());
            }
        }
        assert(t == seq!['('] + body + seq![')']);
        assert(t.subrange(1, t.len() - 1) =~= body);
        assert(t.len() >= 3);
        assert(t != seq!['(', ')']) by {
            if t == seq!['(', ')'] {
                assert(t.len() == 2);
            }
        }
        let h = head.len() as int;
        // the head fields give the piece and the terrain
        let after_head = SquareModel {
            piece: s.piece,
            square_type: s.square_type,
            conditions: seq![],
        };
        if s.piece is Some {
            let p = s.piece->0;
            lemma_piece_round_trip(p);
            assert(fs[0] == seq!['P', '='] + piece_text(s));
            lemma_field_read('P', piece_text(s), SquareModel::empty(), fs, 1);
            if s.square_type != SquareType::Standard {
                assert(fs[1] == seq!['T', '='] + s.square_type.spec_as_str());
                lemma_inert_clean(s.square_type.spec_as_str());
                lemma_field_read('T', s.square_type.spec_as_str(), SquareModel { piece: s.piece, ..SquareModel::empty() }, fs, 2);
            }
        } else if s.square_type != SquareType::Standard {
            assert(fs[0] == seq!['T', '='] + s.square_type.spec_as_str());
            lemma_inert_clean(s.square_type.spec_as_str());
            lemma_field_read('T', s.square_type.spec_as_str(), SquareModel::empty(), fs, 1);
        }
        assert(square_scan(fs, h) == after_head);
        // then one condition per field
        assert forall|i: int| 0 <= i <= s.conditions.len() implies #[trigger] square_scan(fs, h + i)
            == (SquareModel { conditions: s.conditions.take(i), ..after_head }) by {
            lemma_conditions_read(s, fs, h, after_head, i);
        }
        assert(s.conditions.take(s.conditions.len() as int) =~= s.conditions);
        assert(fs.len() == h + s.conditions.len());
    }
}

proof fn lemma_conditions_read(s: SquareModel, fs: Seq<Seq<char>>, h: int, after_head: SquareModel, i: int)
    requires
        0 <= h,
        fs.len() == h + s.conditions.len(),
        forall|k: int| 0 <= k < s.conditions.len() ==> fs[h + k] == #[trigger] cond_field(s.conditions[k]),
        square_scan(fs, h) == after_head,
        after_head.conditions == Seq::<SquareCondition>::empty(),
        0 <= i <= s.conditions.len(),
    ensures
        square_scan(fs, h + i) == (SquareModel { conditions: s.conditions.take(i), ..after_head }),
    decreases i,
{
    lemma_words();
    if i == 0 {
        assert(s.conditions.take(0) =~= Seq::<SquareCondition>::empty());
    } else {
        lemma_conditions_read(s, fs, h, after_head, i - 1);
        let c = s.conditions[i - 1];
        let v = c.spec_as_str();
        assert(fs[h + i - 1] == cond_field(c));
        assert(cond_field(c) == seq!['C', '='] + v);
        assert(all_inert(v));
        lemma_inert_clean(v);
        lemma_field_read('C', v, SquareModel { conditions: s.conditions.take(i - 1), ..after_head }, fs, h + i);
        assert(s.conditions.take(i - 1).push(c) =~= s.conditions.take(i));
    }
}

pub open spec fn blanks(k: nat) -> Seq<SquareModel> {
    Seq::new(k, |j: int| SquareModel::empty())
}

/// A row's text as tokens (counts of empties and square tokens), the squares each
/// token stands for, and the run of empties still pending, after `i` squares.
pub open spec fn row_toks(row: Seq<SquareModel>, i: int) -> (Seq<Seq<char>>, Seq<Seq<SquareModel>>, nat)
    decreases i,
{
    if i <= 0 {
        (seq![], seq![], 0)
    } else {
        let prev = row_toks(row, i - 1);
        let s = row[i - 1];
        if is_blank(s) {
            (prev.0, prev.1, prev.2 + 1)
        } else {
            let ts = if prev.2 > 0 {
                prev.0.push(digits(prev.2))
            } else {
                prev.0
            };
            let gs = if prev.2 > 0 {
                prev.1.push(blanks(prev.2))
            } else {
                prev.1
            };
            (ts.push(sq_sym(s)), gs.push(seq![s]), 0)
        }
    }
}

/// A token that the row reader turns into the squares `g`.
pub open spec fn tok_ok(t: Seq<char>, g: Seq<SquareModel>) -> bool {
    ||| (t.len() == 1 && is_digit(t[0]) && g == blanks(digit_val(t[0])))
    ||| (t.len() == 1 && !is_digit(t[0]) && t[0] != '(' && g == seq![parse_square(t)])
    ||| (t.len() >= 2 && t[0] == '(' && t.last() == ')' && nonneg(t.subrange(1, t.len() - 1))
        && depth(t.subrange(1, t.len() - 1)) == 0 && g == seq![parse_square(t)])
}

pub proof fn lemma_single_digit(k: nat)
    requires
        0 < k < 10,
    ensures
        digits(k) == seq![digit_char(k as int)],
        is_digit(digit_char(k as int)),
        digit_val(digit_char(k as int)) == k,
{
}

pub proof fn lemma_row_toks(row: Seq<SquareModel>, i: int)
    requires
        0 <= i <= row.len(),
        row.len() <= 9,
        forall|j: int| 0 <= j < row.len() ==> valid_square(#[trigger] row[j]),
    ensures
        row_fold(row, i).0 == row_toks(row, i).0.flatten(),
        row_fold(row, i).1 == row_toks(row, i).2,
        row_toks(row, i).1.flatten() + blanks(row_toks(row, i).2) == row.take(i),
        row_toks(row, i).0.len() == row_toks(row, i).1.len(),
        row_toks(row, i).2 <= i,
        forall|j: int| 0 <= j < row_toks(row, i).0.len() ==> tok_ok(
            #[trigger] row_toks(row, i).0[j],
            row_toks(row, i).1[j],
        ),
    decreases i,
{
    if i == 0 {
        assert(row.take(0) =~= Seq::<SquareModel>::empty());
        assert(blanks(0) =~= Seq::<SquareModel>::empty());
        assert(Seq::<Seq<SquareModel>>::empty().flatten() =~= Seq::<SquareModel>::empty());
    } else {
        lemma_row_toks(row, i - 1);
        let prev = row_toks(row, i - 1);
        let s = row[i - 1];
        assert(row.take(i) =~= row.take(i - 1).push(s));
        if is_blank(s) {
            assert(s.conditions =~= Seq::<SquareCondition>::empty());
            assert(s == SquareModel::empty());
            assert(blanks(prev.2 + 1) =~= blanks(prev.2).push(SquareModel::empty()));
            assert(prev.1.flatten() + blanks(prev.2 + 1) =~= (prev.1.flatten() + blanks(prev.2)).push(s));
        } else {
            let ts = if prev.2 > 0 {
                prev.0.push(digits(prev.2))
            } else {
                prev.0
            };
            let gs = if prev.2 > 0 {
                prev.1.push(blanks(prev.2))
            } else {
                prev.1
            };
            if prev.2 > 0 {
                prev.0.lemma_flatten_push(digits(prev.2));
                prev.1.lemma_flatten_push(blanks(prev.2));
                lemma_single_digit(prev.2);
            } else {
                assert(blanks(0) =~= Seq::<SquareModel>::empty());
                assert(prev.1.flatten() + blanks(0) =~= prev.1.flatten());
            }
            assert(ts.flatten() == prev.0.flatten() + count_text(prev.2));
            assert(gs.flatten() == prev.1.flatten() + blanks(prev.2));
            ts.lemma_flatten_push(sq_sym(s));
            gs.lemma_flatten_push(seq![s]);
            assert(blanks(0) =~= Seq::<SquareModel>::empty());
            assert(gs.push(seq![s]).flatten() + blanks(0) =~= (gs.flatten()).push(s));
            lemma_square_token(s);
            let nts = ts.push(sq_sym(s));
            let ngs = gs.push(seq![s]);
            assert forall|j: int| 0 <= j < nts.len() implies tok_ok(#[trigger] nts[j], ngs[j]) by {
                if j < prev.0.len() {
                    assert(nts[j] == prev.0[j]);
                    assert(ngs[j] == prev.1[j]);
                } else if j == nts.len() - 1 {
                } else {
                    assert(nts[j] == digits(prev.2));
                    assert(ngs[j] == blanks(prev.2));
                }
            }
        }
    }
}

/// The token of a non-blank square: a bare letter or a bracketed group.
pub proof fn lemma_square_token(s: SquareModel)
    requires
        valid_square(s),
        !is_blank(s),
    ensures
        tok_ok(sq_sym(s), seq![s]),
        forall|k: int| 0 <= k < sq_sym(s).len() ==> #[trigger] sq_sym(s)[k] != '/',
{
    lemma_square_round_trip(s);
    lemma_words();
    let t = sq_sym(s);
    if piece_text(s).len() == 1 && crate::codec::is_plain(s) {
        lemma_piece_round_trip(s.piece->0);
        assert(t[0] == piece_sym(s.piece->0)[0]);
    } else {
        let fs = square_fields(s);
        lemma_fields_clean(s);
        let body = join_with(fs, ',');
        lemma_join_balanced(fs);
        assert(t == seq!['('] + body + seq![')']);
        assert(t.subrange(1, t.len() - 1) =~= body);
        assert forall|k: int| 0 <= k < t.len() implies #[trigger] t[k] != '/' by {
            if 0 < k < t.len() - 1 {
                assert(t[k] == body[k - 1]);
            }
        }
    }
}

/// The row reader, started at the beginning of token `j`, reads the squares of the
/// tokens from `j` on.
pub proof fn lemma_parse_toks(ts: Seq<Seq<char>>, gs: Seq<Seq<SquareModel>>, j: int)
    requires
        ts.len() == gs.len(),
        0 <= j <= ts.len(),
        forall|i: int| 0 <= i < ts.len() ==> tok_ok(#[trigger] ts[i], gs[i]),
    ensures
        parse_row(ts.flatten(), ts.take(j).flatten().len() as int) == gs.skip(j).flatten(),
    decreases ts.len() - j,
{
    let t = ts.flatten();
    vstd::seq_lib::lemma_flatten_concat(ts.take(j), ts.skip(j));
    assert(ts.take(j) + ts.skip(j) =~= ts);
    let a = ts.take(j).flatten();
    let off = a.len() as int;
    if j == ts.len() {
        assert(ts.skip(j) =~= Seq::<Seq<char>>::empty());
        assert(gs.skip(j) =~= Seq::<Seq<SquareModel>>::empty());
        assert(t =~= a);
    } else {
        lemma_parse_toks(ts, gs, j + 1);
        let tok = ts[j];
        assert(tok_ok(tok, gs[j]));
        assert(ts.skip(j).drop_first() =~= ts.skip(j + 1));
        assert(gs.skip(j).drop_first() =~= gs.skip(j + 1));
        assert(ts.skip(j).flatten() == tok + ts.skip(j + 1).flatten());
        assert(gs.skip(j).flatten() == gs[j] + gs.skip(j + 1).flatten());
        assert(ts.take(j + 1) =~= ts.take(j).push(tok));
        ts.take(j).lemma_flatten_push(tok);
        let off2 = ts.take(j + 1).flatten().len() as int;
        assert(off2 == off + tok.len());
        assert(t == a + tok + ts.skip(j + 1).flatten());
        assert forall|x: int| 0 <= x < tok.len() implies t[off + x] == #[trigger] tok[x] by {
            assert(t[off + x] == (a + tok)[off + x]);
        }
        assert(t.subrange(off, off2) =~= tok);
        if tok.len() == 1 && is_digit(tok[0]) {
            assert(t[off] == tok[0]);
        } else if tok.len() == 1 {
            assert(t[off] == tok[0]);
            assert(token_end(t, off) == off + 1);
            assert(gs[j] == seq![parse_square(t.subrange(off, off + 1))]);
        } else {
            let n = tok.len() - 2;
            let body = tok.subrange(1, tok.len() - 1);
            assert(t.subrange(off + 1, off + 1 + n) =~= body);
            assert(t[off] == '(');
            lemma_match_skip(t, off + 1, 1, n, n);
            assert(body.take(n) =~= body);
            assert(t[off + tok.len() - 1] == ')');
            assert(match_from(t, off + 1 + n, 1) == Some(off + tok.len() - 1));
            assert(match_from(t, off, 0) == match_from(t, off + 1, 1));
            assert(token_end(t, off) == off2);
        }
    }
}

/// A row of at most nine squares with valid pieces reads back from its text.
pub proof fn lemma_row_round_trip(row: Seq<SquareModel>)
    requires
        row.len() <= 9,
        forall|j: int| 0 <= j < row.len() ==> valid_square(#[trigger] row[j]),
    ensures
        parse_row(row_sym(row), 0) == row,
        forall|k: int| 0 <= k < row_sym(row).len() ==> #[trigger] row_sym(row)[k] != '/',
{
    let n = row.len() as int;
    lemma_row_toks(row, n);
    let st = row_toks(row, n);
    let ts = if st.2 > 0 {
        st.0.push(digits(st.2))
    } else {
        st.0
    };
    let gs = if st.2 > 0 {
        st.1.push(blanks(st.2))
    } else {
        st.1
    };
    if st.2 > 0 {
        st.0.lemma_flatten_push(digits(st.2));
        st.1.lemma_flatten_push(blanks(st.2));
        lemma_single_digit(st.2);
    } else {
        assert(blanks(0) =~= Seq::<SquareModel>::empty());
        assert(st.1.flatten() + blanks(0) =~= st.1.flatten());
        assert(st.0.flatten() + count_text(0) =~= st.0.flatten());
    }
    assert(row.take(n) =~= row);
    assert(ts.flatten() == row_sym(row));
    assert(gs.flatten() == row);
    assert forall|i: int| 0 <= i < ts.len() implies tok_ok(#[trigger] ts[i], gs[i]) by {
        if i < st.0.len() {
            assert(ts[i] == st.0[i]);
            assert(gs[i] == st.1[i]);
        }
    }
    lemma_parse_toks(ts, gs, 0);
    assert(ts.take(0) =~= Seq::<Seq<char>>::empty());
    assert(gs.skip(0) =~= gs);
    lemma_toks_no_slash(row, n);
    assert forall|k: int| 0 <= k < row_sym(row).len() implies #[trigger] row_sym(row)[k] != '/' by {
        lemma_flatten_no_slash(ts, k);
    }
}

/// No token of a row holds the row separator.
pub proof fn lemma_toks_no_slash(row: Seq<SquareModel>, i: int)
    requires
        0 <= i <= row.len(),
        row.len() <= 9,
        forall|j: int| 0 <= j < row.len() ==> valid_square(#[trigger] row[j]),
    ensures
        forall|j: int, k: int| 0 <= j < row_toks(row, i).0.len() && 0 <= k < row_toks(row, i).0[j].len()
            ==> row_toks(row, i).0[j][k] != '/',
        row_toks(row, i).2 <= i,
    decreases i,
{
    if i > 0 {
        lemma_toks_no_slash(row, i - 1);
        let prev = row_toks(row, i - 1);
        let s = row[i - 1];
        if !is_blank(s) {
            lemma_square_token(s);
            if prev.2 > 0 {
                lemma_single_digit(prev.2);
            }
        }
    }
}

pub proof fn lemma_flatten_no_slash(ts: Seq<Seq<char>>, k: int)
    requires
        forall|j: int, x: int| 0 <= j < ts.len() && 0 <= x < ts[j].len() ==> ts[j][x] != '/',
        0 <= k < ts.flatten().len(),
    ensures
        ts.flatten()[k] != '/',
    decreases ts.len(),
{
    if ts.len() > 0 {
        let rest = ts.drop_first();
        assert(ts.flatten() == ts[0] + rest.flatten());
        if k >= ts[0].len() {
            assert forall|j: int, x: int| 0 <= j < rest.len() && 0 <= x < rest[j].len() implies rest[j][x]
                != '/' by {
                assert(rest[j] == ts[j + 1]);
            }
            lemma_flatten_no_slash(rest, k - ts[0].len());
        }
    }
}

/// The row split state after reading `t` from `st`.
pub open spec fn rows_seg(st: (Seq<Seq<char>>, Seq<char>), t: Seq<char>) -> (Seq<Seq<char>>, Seq<char>)
    decreases t.len(),
{
    if t.len() == 0 {
        st
    } else {
        let p = rows_seg(st, t.drop_last());
        if t.last() == '/' {
            (p.0.push(p.1), seq![])
        } else {
            (p.0, p.1.push(t.last()))
        }
    }
}

pub proof fn lemma_rows_scan_is_seg(s: Seq<char>, i: int)
    requires
        0 <= i <= s.len(),
    ensures
        rows_scan(s, i) == rows_seg((seq![], seq![]), s.take(i)),
    decreases i,
{
    if i > 0 {
        lemma_rows_scan_is_seg(s, i - 1);
        assert(s.take(i).drop_last() =~= s.take(i - 1));
    } else {
        assert(s.take(0) =~= Seq::<char>::empty());
    }
}

pub proof fn lemma_rows_seg_concat(st: (Seq<Seq<char>>, Seq<char>), a: Seq<char>, b: Seq<char>)
    ensures
        rows_seg(st, a + b) == rows_seg(rows_seg(st, a), b),
    decreases b.len(),
{
    if b.len() == 0 {
        assert(a + b =~= a);
    } else {
        lemma_rows_seg_concat(st, a, b.drop_last());
        assert((a + b).drop_last() =~= a + b.drop_last());
    }
}

pub proof fn lemma_rows_seg_plain(d: Seq<Seq<char>>, t: Seq<char>, k: int)
    requires
        forall|x: int| 0 <= x < t.len() ==> #[trigger] t[x] != '/',
        0 <= k <= t.len(),
    ensures
        rows_seg((d, seq![]), t.take(k)) == (d, t.take(k)),
    decreases k,
{
    if k > 0 {
        lemma_rows_seg_plain(d, t, k - 1);
        assert(t.take(k).drop_last() =~= t.take(k - 1));
        assert(t.take(k - 1).push(t[k - 1]) =~= t.take(k));
    } else {
        assert(t.take(0) =~= Seq::<char>::empty());
    }
}

pub proof fn lemma_rows_join(ps: Seq<Seq<char>>)
    requires
        ps.len() >= 1,
        forall|i: int, x: int| 0 <= i < ps.len() && 0 <= x < ps[i].len() ==> ps[i][x] != '/',
    ensures
        rows_seg((seq![], seq![]), join_with(ps, '/')) == (ps.drop_last(), ps.last()),
    decreases ps.len(),
{
    let last = ps.last();
    assert forall|x: int| 0 <= x < last.len() implies #[trigger] last[x] != '/' by {
        assert(last == ps[ps.len() - 1]);
    }
    if ps.len() == 1 {
        lemma_rows_seg_plain(seq![], last, last.len() as int);
        assert(last.take(last.len() as int) =~= last);
        assert(ps.drop_last() =~= Seq::<Seq<char>>::empty());
    } else {
        let q = ps.drop_last();
        assert forall|i: int, x: int| 0 <= i < q.len() && 0 <= x < q[i].len() implies q[i][x] != '/' by {
            assert(q[i] == ps[i]);
        }
        lemma_rows_join(q);
        let jq = join_with(q, '/');
        assert(join_with(ps, '/') == jq + seq!['/'] + last);
        lemma_rows_seg_concat((seq![], seq![]), jq + seq!['/'], last);
        lemma_rows_seg_concat((seq![], seq![]), jq, seq!['/']);
        let slash = seq!['/'];
        assert(slash.drop_last().len() == 0);
        assert(rows_seg(rows_seg((seq![], seq![]), jq), slash.drop_last()) == rows_seg((seq![], seq![]), jq));
        assert(q.drop_last().push(q.last()) =~= q);
        lemma_rows_seg_plain(q, last, last.len() as int);
        assert(last.take(last.len() as int) =~= last);
    }
}

/// Cutting `/`-joined texts without `/` at every `/` gives the texts back.
pub proof fn lemma_split_rows_join(ps: Seq<Seq<char>>)
    requires
        ps.len() >= 1,
        forall|i: int, x: int| 0 <= i < ps.len() && 0 <= x < ps[i].len() ==> ps[i][x] != '/',
    ensures
        split_rows(join_with(ps, '/')) == ps,
{
    let s = join_with(ps, '/');
    lemma_rows_scan_is_seg(s, s.len() as int);
    assert(s.take(s.len() as int) =~= s);
    lemma_rows_join(ps);
    assert(ps.drop_last().push(ps.last()) =~= ps);
}

/// The boards that the notation carries exactly: at least one row, rows of at most nine
/// squares (a run of empties is one digit), default flags, and valid pieces.
pub open spec fn valid_board(b: BoardModel) -> bool {
    &&& b.grid.len() >= 1
    &&& b.flags == default_flags()
    &&& forall|r: int| 0 <= r < b.grid.len() ==> (#[trigger] b.grid[r]).len() <= 9
    &&& forall|r: int, f: int|
        0 <= r < b.grid.len() && 0 <= f < b.grid[r].len() ==> valid_square(#[trigger] b.grid[r][f])
}

/// Writing a board in the notation and reading the text back gives the same board.
pub proof fn lemma_round_trip(b: BoardModel)
    requires
        valid_board(b),
    ensures
        decode(board_sym(b)) == b,
{
    let rows = Seq::new(b.grid.len(), |r: int| row_sym(b.grid[r]));
    assert forall|r: int| 0 <= r < b.grid.len() implies parse_row(#[trigger] rows[r], 0) == b.grid[r]
        && (forall|x: int| 0 <= x < rows[r].len() ==> rows[r][x] != '/') by {
        let row = b.grid[r];
        assert forall|f: int| 0 <= f < row.len() implies valid_square(#[trigger] row[f]) by {
            assert(valid_square(b.grid[r][f]));
        }
        lemma_row_round_trip(row);
    }
    lemma_split_rows_join(rows);
    let d = decode(board_sym(b));
    assert(d.grid =~= b.grid);
}

pub proof fn lemma_depth_concat(a: Seq<char>, b: Seq<char>)
    ensures
        depth(a + b) == depth(a) + depth(b),
    decreases b.len(),
{
    if b.len() == 0 {
        assert(a + b =~= a);
    } else {
        lemma_depth_concat(a, b.drop_last());
        assert((a + b).drop_last() =~= a + b.drop_last());
    }
}

pub proof fn lemma_prefix_concat(a: Seq<char>, b: Seq<char>, k: int)
    requires
        a.len() <= k <= a.len() + b.len(),
    ensures
        depth((a + b).take(k)) == depth(a) + depth(b.take(k - a.len())),
{
    assert((a + b).take(k) =~= a + b.take(k - a.len()));
    lemma_depth_concat(a, b.take(k - a.len()));
}

/// Joining two bracket-safe texts keeps every prefix from closing too much.
pub proof fn lemma_nonneg_concat(a: Seq<char>, b: Seq<char>)
    requires
        nonneg(a),
        nonneg(b),
    ensures
        nonneg(a + b),
        depth(a + b) == depth(a) + depth(b),
{
    lemma_depth_concat(a, b);
    assert(a.take(a.len() as int) =~= a);
    assert(depth(a.take(a.len() as int)) >= 0);
    assert forall|k: int| 0 <= k <= (a + b).len() implies #[trigger] depth((a + b).take(k)) >= 0 by {
        if k <= a.len() {
            assert((a + b).take(k) =~= a.take(k));
        } else {
            lemma_prefix_concat(a, b, k);
            assert(depth(b.take(k - a.len())) >= 0);
        }
    }
}

pub proof fn lemma_top_free_concat(a: Seq<char>, b: Seq<char>)
    requires
        nonneg(a),
        top_free(a),
        top_free(b),
    ensures
        top_free(a + b),
{
    assert(a.take(a.len() as int) =~= a);
    assert(depth(a.take(a.len() as int)) >= 0);
    assert forall|k: int| 0 <= k < (a + b).len() && (a + b)[k] == ',' implies #[trigger] depth(
        (a + b).take(k),
    ) > 0 by {
        if k < a.len() {
            assert((a + b).take(k) =~= a.take(k));
            assert(a[k] == ',');
        } else {
            lemma_prefix_concat(a, b, k);
            assert(b[k - a.len()] == ',');
        }
    }
}

pub proof fn lemma_quiet_concat(a: Seq<char>, b: Seq<char>)
    requires
        quiet(a),
        quiet(b),
    ensures
        quiet(a + b),
{
    assert forall|k: int| 0 <= k < (a + b).len() implies !is_ws(#[trigger] (a + b)[k]) && (a
        + b)[k] != '/' by {
        if k >= a.len() {
            assert((a + b)[k] == b[k - a.len()]);
        }
    }
}

pub proof fn lemma_inert_clean(t: Seq<char>)
    requires
        all_inert(t),
    ensures
        nonneg(t),
        depth(t) == 0,
        top_free(t),
        quiet(t),
        t.len() > 0 ==> clean(t),
{
    assert forall|k: int| 0 <= k <= t.len() implies #[trigger] depth(t.take(k)) == 0 by {
        lemma_inert_depth(t, k);
    }
    assert(t.take(t.len() as int) =~= t);
    assert forall|k: int| 0 <= k < t.len() implies !is_ws(#[trigger] t[k]) && t[k] != '/' by {
        assert(inert(t[k]));
    }
    assert forall|k: int| 0 <= k < t.len() && t[k] == ',' implies #[trigger] depth(t.take(k)) > 0 by {
        assert(inert(t[k]));
    }
}

pub proof fn lemma_depth_single(c: char)
    ensures
        depth(seq![c]) == paren_delta(c),
        c != ')' ==> nonneg(seq![c]),
{
    let t = seq![c];
    assert(t.drop_last() =~= Seq::<char>::empty());
    assert(depth(Seq::<char>::empty()) == 0);
    assert(t.last() == c);
    assert(t.take(0) =~= Seq::<char>::empty());
    assert(t.take(1) =~= t);
    if c != ')' {
        assert forall|k: int| 0 <= k <= t.len() implies #[trigger] depth(t.take(k)) >= 0 by {
            if k == 0 {
            } else {
            }
        }
    }
}

/// A bracketed group around a bracket-safe text closes exactly what it opens and shields
/// its commas.
pub proof fn lemma_wrap(body: Seq<char>)
    requires
        nonneg(body),
        depth(body) == 0,
        quiet(body),
    ensures
        clean(seq!['('] + body + seq![')']),
{
    let t = seq!['('] + body + seq![')'];
    let open = seq!['('];
    lemma_depth_single('(');
    lemma_depth_concat(open, body);
    assert forall|k: int| 0 <= k <= t.len() implies #[trigger] depth(t.take(k)) >= 0 by {
        if k == 0 {
            assert(t.take(0) =~= Seq::<char>::empty());
        } else if k <= body.len() + 1 {
            assert(t.take(k) =~= open + body.take(k - 1));
            lemma_depth_concat(open, body.take(k - 1));
        } else {
            assert(t.take(k) =~= t);
            assert(t =~= (open + body) + seq![')']);
            assert((open + body + seq![')']).drop_last() =~= open + body);
        }
    }
    assert(t.take(t.len() as int) =~= t);
    assert(t.drop_last() =~= open + body);
    assert(depth(t) == 0);
    assert forall|k: int| 0 <= k < t.len() && t[k] == ',' implies #[trigger] depth(t.take(k)) > 0 by {
        assert(k >= 1 && k <= body.len());
        assert(t.take(k) =~= open + body.take(k - 1));
        lemma_depth_concat(open, body.take(k - 1));
    }
    assert forall|k: int| 0 <= k < t.len() implies !is_ws(#[trigger] t[k]) && t[k] != '/' by {
        if 1 <= k <= body.len() {
            assert(t[k] == body[k - 1]);
        }
    }
}

/// Comma-joined clean tokens are bracket-safe, balanced and quiet.
pub proof fn lemma_join_balanced(ps: Seq<Seq<char>>)
    requires
        forall|i: int| 0 <= i < ps.len() ==> clean(#[trigger] ps[i]),
    ensures
        nonneg(join_with(ps, ',')),
        depth(join_with(ps, ',')) == 0,
        quiet(join_with(ps, ',')),
    decreases ps.len(),
{
    if ps.len() == 0 {
        lemma_inert_clean(Seq::<char>::empty());
        assert(join_with(ps, ',') =~= Seq::<char>::empty());
    } else if ps.len() == 1 {
        assert(clean(ps[0]));
    } else {
        let q = ps.drop_last();
        assert forall|i: int| 0 <= i < q.len() implies clean(#[trigger] q[i]) by {
            assert(q[i] == ps[i]);
        }
        lemma_join_balanced(q);
        let jq = join_with(q, ',');
        let comma = seq![','];
        lemma_depth_single(',');
        assert(quiet(comma));
        assert(clean(ps[ps.len() - 1]));
        lemma_nonneg_concat(jq, comma);
        lemma_nonneg_concat(jq + comma, ps.last());
        lemma_quiet_concat(jq, comma);
        lemma_quiet_concat(jq + comma, ps.last());
        assert(join_with(ps, ',') == jq + comma + ps.last());
    }
}

pub proof fn lemma_digit_char(d: int)
    requires
        0 <= d < 10,
    ensures
        is_digit(digit_char(d)),
        digit_val(digit_char(d)) == d,
        inert(digit_char(d)),
        digit_char(d) != '-' && digit_char(d) != '+',
{
}

/// A numeral is a non-empty run of inert digits whose value is the number.
pub proof fn lemma_digits(n: nat)
    ensures
        digits(n).len() >= 1,
        all_digits(digits(n)),
        all_inert(digits(n)),
        forall|k: int| 0 <= k < digits(n).len() ==> #[trigger] digits(n)[k] != '-',
        digits(n)[0] != '+',
        numeral(digits(n)) == n,
    decreases n,
{
    if n < 10 {
        lemma_digit_char(n as int);
        let t = digits(n);
        assert(t.drop_last() =~= Seq::<char>::empty());
        assert(numeral(Seq::<char>::empty()) == 0);
    } else {
        lemma_digits(n / 10);
        lemma_digit_char(n as int % 10);
        let t = digits(n);
        let x = digits(n / 10);
        assert(t == x.push(digit_char(n as int % 10)));
        assert(t.drop_last() =~= x);
        vstd::arithmetic::div_mod::lemma_fundamental_div_mod(n as int, 10);
        assert(numeral(t) == numeral(x) * 10 + digit_val(digit_char(n as int % 10)));
        assert forall|k: int| 0 <= k < t.len() implies is_digit(#[trigger] t[k]) && inert(t[k])
            && t[k] != '-' by {
            if k < x.len() {
                assert(t[k] == x[k]);
            }
        }
        assert(t[0] == x[0]);
    }
}

pub proof fn lemma_parse_digits(n: u8)
    ensures
        parse_u8(digits(n as nat)) == Some(n),
{
    lemma_digits(n as nat);
}

/// The bracket scan from an opening bracket stops at its match over a balanced body.
pub proof fn lemma_group_balanced(pre: Seq<char>, body: Seq<char>, post: Seq<char>)
    requires
        nonneg(body),
        depth(body) == 0,
    ensures
        match_from(pre + seq!['('] + body + seq![')'] + post, pre.len() as int, 0) == Some(
            (pre.len() + body.len() + 1) as int,
        ),
{
    let s = pre + seq!['('] + body + seq![')'] + post;
    let k = pre.len() as int + 1;
    assert(s.subrange(k, k + body.len()) =~= body);
    lemma_match_skip(s, k, 1, body.len() as int, body.len() as int);
    assert(body.take(body.len() as int) =~= body);
    assert(s[pre.len() as int] == '(');
    assert(s[k + body.len()] == ')');
}

/// A token `name(body)`: where its bracket starts, and what it holds.
pub proof fn lemma_named_group(name: Seq<char>, body: Seq<char>)
    requires
        name.len() >= 1,
        forall|k: int| 0 <= k < name.len() ==> #[trigger] name[k] != '(',
        nonneg(body),
        depth(body) == 0,
    ensures
        first_at(name + seq!['('] + body + seq![')'], '(', 0) == Some(name.len() as int),
        before(name + seq!['('] + body + seq![')'], '(') == name,
        inside(name + seq!['('] + body + seq![')']) == Some(Some(body)),
{
    let t = name + seq!['('] + body + seq![')'];
    lemma_first_at_skip(t, '(', 0, name.len() as int);
    assert(t[name.len() as int] == '(');
    assert(t.take(name.len() as int) =~= name);
    lemma_group_balanced(name, body, Seq::<char>::empty());
    assert(name + seq!['('] + body + seq![')'] + Seq::<char>::empty() =~= t);
    assert(t.subrange(name.len() as int + 1, name.len() as int + 1 + body.len()) =~= body);
}

/// A text without brackets, white space or separators is balanced and quiet.
pub proof fn lemma_bare_balanced(t: Seq<char>)
    requires
        forall|k: int| 0 <= k < t.len() ==> #[trigger] t[k] != '(' && t[k] != ')' && !is_ws(t[k])
            && t[k] != '/',
    ensures
        nonneg(t),
        depth(t) == 0,
        quiet(t),
{
    assert forall|k: int| 0 <= k <= t.len() implies #[trigger] depth(t.take(k)) >= 0 by {
        lemma_paren_free_depth(t, k);
    }
    lemma_paren_free_depth(t, t.len() as int);
    assert(t.take(t.len() as int) =~= t);
}

/// `name(content)` is clean when its name is inert and its content balanced and quiet.
pub proof fn lemma_named_clean(name: Seq<char>, content: Seq<char>)
    requires
        all_inert(name),
        nonneg(content),
        depth(content) == 0,
        quiet(content),
    ensures
        clean(name + seq!['('] + content + seq![')']),
{
    lemma_wrap(content);
    lemma_inert_clean(name);
    let g = seq!['('] + content + seq![')'];
    lemma_nonneg_concat(name, g);
    lemma_top_free_concat(name, g);
    lemma_quiet_concat(name, g);
    assert(name + seq!['('] + content + seq![')'] =~= name + g);
}

#[verifier::rlimit(40)]
pub proof fn lemma_skibidi_round_trip(color: Color, phase: u8)
    requires
        phase >= 1,
    ensures
        clean(piece_sym(PieceModel::Skibidi { color, phase })),
        is_letter(piece_sym(PieceModel::Skibidi { color, phase })[0]),
        sym_piece(piece_sym(PieceModel::Skibidi { color, phase })) == Some(
            PieceModel::Skibidi { color, phase },
        ),
{
    let p = PieceModel::Skibidi { color, phase };
    if phase == 1 {
        lemma_letter_round_trip(p);
        lemma_inert_clean(piece_sym(p));
    } else {
        reveal_strlit("(PHASE=");
        reveal_strlit(")");
        reveal_strlit("PHASE");
        let l = letter(color, 'S', 's');
        let d = digits(phase as nat);
        lemma_digits(phase as nat);
        lemma_parse_digits(phase);
        let key = seq!['P', 'H', 'A', 'S', 'E'];
        let content = key + seq!['='] + d;
        let t = piece_sym(p);
        assert("(PHASE="@ =~= seq!['('] + key + seq!['=']);
        assert(")"@ =~= seq![')']);
        assert(t =~= l + seq!['('] + content + seq![')']);
        assert forall|k: int| 0 <= k < content.len() implies #[trigger] content[k] != '(' && content[k]
            != ')' && !is_ws(content[k]) && content[k] != '/' && content[k] != ',' by {
            if k > 5 {
                assert(content[k] == d[k - 6]);
                assert(inert(d[k - 6]));
            }
        }
        lemma_bare_balanced(content);
        lemma_named_clean(l, content);
        lemma_named_group(l, content);
        assert(clean(content)) by {
            assert forall|k: int| 0 <= k < content.len() && content[k] == ',' implies #[trigger] depth(
                content.take(k),
            ) > 0 by {
            }
        }
        lemma_split_join(seq![content]);
        assert(join_with(seq![content], ',') == content);
        let fields = split_top(content);
        assert(fields == seq![content]);
        lemma_first_at_skip(content, '=', 0, 5);
        assert(content.take(5) =~= key);
        assert(content.skip(6) =~= d);
        assert(quiet(key));
        lemma_trim_quiet(key);
        assert(quiet(d)) by {
            assert forall|k: int| 0 <= k < d.len() implies !is_ws(#[trigger] d[k]) && d[k] != '/' by {
                assert(inert(d[k]));
            }
        }
        lemma_trim_quiet(d);
        assert(split_kv(content) == Some((key, d)));
        assert(phase_key() == key);
        assert(skibidi_scan(fields, 0) == Some(1u8));
        assert(skibidi_scan(fields, 1) == Some(phase));
        assert(skibidi_from(t) == Some(p));
    }
}

pub open spec fn home_field(home: crate::board::Coord) -> Seq<char> {
    seq!['H', '='] + digits(home.file as nat) + seq!['-'] + digits(home.rank as nat)
}

/// The home field `H=f-r` of a Goblin is clean, holds no comma or bracket, and reads
/// back as the home square.
pub proof fn lemma_home_field(home: crate::board::Coord)
    ensures
        clean(home_field(home)),
        forall|k: int| 0 <= k < home_field(home).len() ==> #[trigger] home_field(home)[k] != '('
            && home_field(home)[k] != ')' && home_field(home)[k] != ',',
        split_kv(home_field(home)) matches Some(kv) && kv.0 == seq!['H'] && parse_coord(kv.1) == Some(
            home,
        ),
{
    let df = digits(home.file as nat);
    let dr = digits(home.rank as nat);
    lemma_digits(home.file as nat);
    lemma_digits(home.rank as nat);
    lemma_parse_digits(home.file);
    lemma_parse_digits(home.rank);
    let val = df + seq!['-'] + dr;
    let hf = seq!['H', '='] + val;
    assert(home_field(home) =~= hf);
    assert forall|k: int| 0 <= k < hf.len() implies #[trigger] hf[k] != '(' && hf[k] != ')' && !is_ws(
        hf[k],
    ) && hf[k] != '/' && hf[k] != ',' by {
        if 2 <= k < 2 + df.len() {
            assert(hf[k] == df[k - 2]);
            assert(inert(df[k - 2]));
        } else if k > 2 + df.len() {
            assert(hf[k] == dr[k - 3 - df.len()]);
            assert(inert(dr[k - 3 - df.len()]));
        }
    }
    lemma_bare_balanced(hf);
    assert(clean(hf)) by {
        assert forall|k: int| 0 <= k < hf.len() && hf[k] == ',' implies #[trigger] depth(hf.take(k))
            > 0 by {
        }
    }
    assert(hf.take(1) =~= seq!['H']);
    assert(hf.skip(2) =~= val);
    assert(first_at(hf, '=', 1) == Some(1int));
    lemma_trim_quiet(seq!['H']);
    assert(quiet(val)) by {
        assert forall|k: int| 0 <= k < val.len() implies !is_ws(#[trigger] val[k]) && val[k] != '/' by {
            assert(val[k] == hf[k + 2]);
        }
    }
    lemma_trim_quiet(val);
    assert(split_kv(hf) == Some((seq!['H'], val)));
    lemma_first_at_skip(val, '-', 0, df.len() as int);
    assert(val[df.len() as int] == '-');
    assert(val.take(df.len() as int) =~= df);
    assert(val.skip(df.len() as int + 1) =~= dr);
    lemma_first_at_skip(dr, '-', 0, dr.len() as int);
    assert(before(dr, '-') == dr);
    assert(parse_coord(val) == Some(home));
}

pub proof fn lemma_goblin_free_round_trip(color: Color, home: crate::board::Coord)
    ensures
        clean(piece_sym(PieceModel::Goblin { color, cargo: None, home })),
        is_letter(piece_sym(PieceModel::Goblin { color, cargo: None, home })[0]),
        sym_piece(piece_sym(PieceModel::Goblin { color, cargo: None, home })) == Some(
            PieceModel::Goblin { color, cargo: None, home },
        ),
{
    let p = PieceModel::Goblin { color, cargo: None, home };
    reveal_strlit("(H=");
    reveal_strlit("-");
    reveal_strlit(")");
    let l = letter(color, 'G', 'g');
    let content = home_field(home);
    lemma_home_field(home);
    let t = piece_sym(p);
    assert(t =~= l + seq!['('] + content + seq![')']);
    lemma_named_clean(l, content);
    lemma_named_group(l, content);
    lemma_split_join(seq![content]);
    assert(join_with(seq![content], ',') == content);
    let fields = split_top(content);
    assert(fields == seq![content]);
    assert(goblin_scan(t.len(), fields, 0) == Some((None::<crate::board::Coord>, None::<PieceModel>)));
    assert(goblin_scan(t.len(), fields, 1) == Some((Some(home), None::<PieceModel>)));
}

pub proof fn lemma_join_front(x: Seq<char>, r: Seq<Seq<char>>, sep: char)
    ensures
        join_with(seq![x] + r, sep) == if r.len() == 0 {
            x
        } else {
            x + seq![sep] + join_with(r, sep)
        },
    decreases r.len(),
{
    if r.len() == 0 {
        assert(seq![x] + r =~= seq![x]);
    } else {
        lemma_join_front(x, r.drop_last(), sep);
        assert((seq![x] + r).drop_last() =~= seq![x] + r.drop_last());
        assert((seq![x] + r).last() == r.last());
        if r.len() == 1 {
            assert(r.drop_last() =~= Seq::<Seq<char>>::empty());
            assert(join_with(r, sep) == r[0]);
        } else {
            assert(join_with(r, sep) == join_with(r.drop_last(), sep) + seq![sep] + r.last());
            assert(x + seq![sep] + join_with(r.drop_last(), sep) + seq![sep] + r.last() =~= x + seq![
                sep,
            ] + join_with(r, sep));
        }
    }
}

pub open spec fn syms_of(ps: Seq<PieceModel>) -> Seq<Seq<char>> {
    ps.map_values(|q: PieceModel| piece_sym(q))
}

pub proof fn lemma_sym_list(ps: Seq<PieceModel>, i: int)
    requires
        0 <= i <= ps.len(),
    ensures
        sym_list(ps, i) == join_with(syms_of(ps).skip(i), ','),
    decreases ps.len() - i,
{
    let syms = syms_of(ps);
    if i == ps.len() {
        assert(syms.skip(i) =~= Seq::<Seq<char>>::empty());
    } else {
        lemma_sym_list(ps, i + 1);
        assert(syms.skip(i) =~= seq![syms[i]] + syms.skip(i + 1));
        lemma_join_front(syms[i], syms.skip(i + 1), ',');
    }
}

pub proof fn lemma_bus_list(bound: nat, ps: Seq<PieceModel>, k: int)
    requires
        0 <= k <= ps.len(),
        forall|i: int| 0 <= i < ps.len() ==> sym_piece(piece_sym(#[trigger] ps[i])) == Some(ps[i]),
        forall|i: int| 0 <= i < ps.len() ==> (#[trigger] piece_sym(ps[i])).len() < bound,
    ensures
        bus_list(bound, syms_of(ps), k) == ps.take(k),
    decreases k,
{
    if k == 0 {
        assert(ps.take(0) =~= Seq::<PieceModel>::empty());
    } else {
        lemma_bus_list(bound, ps, k - 1);
        let t = syms_of(ps)[k - 1];
        assert(t == piece_sym(ps[k - 1]));
        assert(sym_piece(piece_sym(ps[k - 1])) == Some(ps[k - 1]));
        assert(piece_sym(ps[k - 1]).len() < bound);
        assert(ps.take(k - 1).push(ps[k - 1]) =~= ps.take(k));
    }
}

#[verifier::rlimit(40)]
pub proof fn lemma_goblin_kidnap_round_trip(color: Color, c: PieceModel, home: crate::board::Coord)
    requires
        clean(piece_sym(c)),
        sym_piece(piece_sym(c)) == Some(c),
    ensures
        clean(piece_sym(PieceModel::Goblin { color, cargo: Some(Box::new(c)), home })),
        is_letter(piece_sym(PieceModel::Goblin { color, cargo: Some(Box::new(c)), home })[0]),
        sym_piece(piece_sym(PieceModel::Goblin { color, cargo: Some(Box::new(c)), home })) == Some(
            PieceModel::Goblin { color, cargo: Some(Box::new(c)), home },
        ),
{
    let p = PieceModel::Goblin { color, cargo: Some(Box::new(c)), home };
    reveal_strlit("(H=");
    reveal_strlit("-");
    reveal_strlit(")");
    reveal_strlit(",P=");
    let l = letter(color, 'G', 'g');
    let sc = piece_sym(c);
    let hf = home_field(home);
    lemma_home_field(home);
    let pf = seq!['P', '='] + sc;
    let content = hf + seq![','] + pf;
    let t = piece_sym(p);
    assert(t =~= l + seq!['('] + content + seq![')']);
    lemma_field_clean('P', sc);
    let fields = seq![hf, pf];
    assert forall|i: int| 0 <= i < fields.len() implies clean(#[trigger] fields[i]) by {
    }
    assert(join_with(fields, ',') == content) by {
        assert(fields.drop_last() =~= seq![hf]);
        assert(join_with(seq![hf], ',') == hf);
    }
    lemma_split_join(fields);
    lemma_join_balanced(fields);
    lemma_named_clean(l, content);
    lemma_named_group(l, content);
    assert(split_kv(pf) == Some((seq!['P'], sc)));
    assert(sc.len() < t.len());
    assert(goblin_scan(t.len(), fields, 0) == Some((None::<crate::board::Coord>, None::<PieceModel>)));
    assert(goblin_scan(t.len(), fields, 1) == Some((Some(home), None::<PieceModel>)));
    assert(goblin_scan(t.len(), fields, 2) == Some((Some(home), Some(c))));
}

#[verifier::rlimit(40)]
pub proof fn lemma_bus_round_trip(color: Color, ps: Seq<PieceModel>)
    requires
        forall|i: int| 0 <= i < ps.len() ==> clean(piece_sym(#[trigger] ps[i])),
        forall|i: int| 0 <= i < ps.len() ==> sym_piece(piece_sym(#[trigger] ps[i])) == Some(ps[i]),
    ensures
        clean(piece_sym(PieceModel::Bus { color, passengers: ps })),
        is_letter(piece_sym(PieceModel::Bus { color, passengers: ps })[0]),
        sym_piece(piece_sym(PieceModel::Bus { color, passengers: ps })) == Some(
            PieceModel::Bus { color, passengers: ps },
        ),
{
    let p = PieceModel::Bus { color, passengers: ps };
    reveal_strlit("BUS");
    reveal_strlit("bus");
    reveal_strlit("(P=(");
    reveal_strlit("))");
    let w = bus_word(color);
    assert(w.len() == 3);
    assert(all_inert(w));
    let t = piece_sym(p);
    assert(crate::decode::lower(w[0]) == 'b' && crate::decode::lower(w[1]) == 'u'
        && crate::decode::lower(w[2]) == 's');
    if ps.len() == 0 {
        assert(t =~= w);
        lemma_inert_clean(w);
        lemma_first_at_skip(w, '(', 0, 3);
        assert(before(w, '(') == w);
        assert(inside(w) == Some(None::<Seq<char>>));
        assert(ps =~= Seq::<PieceModel>::empty());
    } else {
        let syms = syms_of(ps);
        assert forall|i: int| 0 <= i < syms.len() implies clean(#[trigger] syms[i]) by {
            assert(syms[i] == piece_sym(ps[i]));
        }
        lemma_sym_list(ps, 0);
        assert(syms.skip(0) =~= syms);
        let list = sym_list(ps, 0);
        assert(list == join_with(syms, ','));
        lemma_join_balanced(syms);
        lemma_split_join(syms);
        let pv = seq!['('] + list + seq![')'];
        lemma_wrap(list);
        lemma_field_clean('P', pv);
        let content = seq!['P', '='] + pv;
        assert(t =~= w + seq!['('] + content + seq![')']);
        lemma_named_clean(w, content);
        lemma_first_at_skip(w + seq!['('] + content + seq![')'], '(', 0, 3);
        lemma_named_group(w, content);
        lemma_split_join(seq![content]);
        assert(join_with(seq![content], ',') == content);
        let fields = split_top(content);
        assert(fields == seq![content]);
        assert(split_kv(content) == Some((seq!['P'], pv)));
        assert(pv.subrange(1, pv.len() - 1) =~= list);
        assert forall|i: int| 0 <= i < ps.len() implies (#[trigger] piece_sym(ps[i])).len() < t.len() by {
            assert(syms[i] == piece_sym(ps[i]));
            lemma_join_part_len(syms, i);
        }
        lemma_bus_list(t.len(), ps, ps.len() as int);
        assert(ps.take(ps.len() as int) =~= ps);
        assert(bus_scan(t.len(), fields, 0) == Some(Seq::<PieceModel>::empty()));
        assert(bus_scan(t.len(), fields, 1) == Some(Seq::<PieceModel>::empty() + ps));
        assert(Seq::<PieceModel>::empty() + ps =~= ps);
    }
}

/// Each part of a join is no longer than the join.
pub proof fn lemma_join_part_len(ps: Seq<Seq<char>>, i: int)
    requires
        0 <= i < ps.len(),
    ensures
        ps[i].len() <= join_with(ps, ',').len(),
    decreases ps.len(),
{
    if ps.len() > 1 {
        if i < ps.len() - 1 {
            lemma_join_part_len(ps.drop_last(), i);
            assert(ps.drop_last()[i] == ps[i]);
        }
    }
}

} // verus!
