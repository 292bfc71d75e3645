//! Reading pieces, squares and boards from the notation.

use vstd::prelude::*;

use crate::board::{
    Board, BoardFlags, BoardModel, Coord, Square, SquareCondition, SquareModel, SquareType,
};
use crate::codec::str_chars;
use crate::pieces::{Bus, Color, Goblin, GoblinState, PieceModel, PieceType, Skibidi};

verus! {

broadcast use vstd::std_specs::vec::group_vec_axioms, vstd::seq::group_seq_axioms;

pub open spec fn is_ws(c: char) -> bool {
    c == ' ' || c == '\t' || c == '\n' || c == '\r'
}

pub open spec fn lead_end(s: Seq<char>, i: int) -> int
    decreases s.len() - i,
{
    if 0 <= i < s.len() && is_ws(s[i]) {
        lead_end(s, i + 1)
    } else {
        i
    }
}

pub open spec fn trail_end(s: Seq<char>, j: int, lo: int) -> int
    decreases j - lo,
{
    if lo < j <= s.len() && is_ws(s[j - 1]) {
        trail_end(s, j - 1, lo)
    } else {
        j
    }
}

/// `s` without leading and trailing white space.
pub open spec fn trim(s: Seq<char>) -> Seq<char> {
    let lo = lead_end(s, 0);
    s.subrange(lo, trail_end(s, s.len() as int, lo))
}

/// The state of a top-level split after some characters: parts done, the part being
/// read, and the bracket depth.
pub open spec fn split_step(st: (Seq<Seq<char>>, Seq<char>, nat), c: char) -> (
    Seq<Seq<char>>,
    Seq<char>,
    nat,
) {
    if c == '(' {
        (st.0, st.1.push(c), st.2 + 1)
    } else if c == ')' {
        (st.0, st.1.push(c), if st.2 > 0 {
            (st.2 - 1) as nat
        } else {
            0
        })
    } else if c == ',' && st.2 == 0 {
        (st.0.push(trim(st.1)), seq![], 0)
    } else {
        (st.0, st.1.push(c), st.2)
    }
}

pub open spec fn split_scan(s: Seq<char>, i: int) -> (Seq<Seq<char>>, Seq<char>, nat)
    decreases i,
{
    if i <= 0 {
        (seq![], seq![], 0)
    } else {
        split_step(split_scan(s, i - 1), s[i - 1])
    }
}

/// `s` cut at the commas outside brackets, each part trimmed; a final empty part is
/// dropped.
pub open spec fn split_top(s: Seq<char>) -> Seq<Seq<char>> {
    let st = split_scan(s, s.len() as int);
    if st.1.len() > 0 {
        st.0.push(trim(st.1))
    } else {
        st.0
    }
}

/// The index of the `)` that brings the bracket depth back to zero, scanning from `k`
/// at depth `depth`.
pub open spec fn match_from(s: Seq<char>, k: int, depth: int) -> Option<int>
    decreases s.len() - k,
{
    if k < 0 || k >= s.len() {
        None
    } else if s[k] == '(' {
        match_from(s, k + 1, depth + 1)
    } else if s[k] == ')' {
        if depth - 1 == 0 {
            Some(k)
        } else {
            match_from(s, k + 1, depth - 1)
        }
    } else {
        match_from(s, k + 1, depth)
    }
}

pub proof fn lemma_match_from(s: Seq<char>, k: int, depth: int)
    ensures
        match match_from(s, k, depth) {
            Some(j) => k <= j < s.len() && s[j] == ')',
            None => true,
        },
    decreases s.len() - k,
{
    if 0 <= k < s.len() {
        if s[k] == '(' {
            lemma_match_from(s, k + 1, depth + 1);
        } else if s[k] == ')' {
            lemma_match_from(s, k + 1, depth - 1);
        } else {
            lemma_match_from(s, k + 1, depth);
        }
    }
}

/// The first index from `i` on that holds `c`.
pub open spec fn first_at(s: Seq<char>, c: char, i: int) -> Option<int>
    decreases s.len() - i,
{
    if i < 0 || i >= s.len() {
        None
    } else if s[i] == c {
        Some(i)
    } else {
        first_at(s, c, i + 1)
    }
}

pub proof fn lemma_first_at(s: Seq<char>, c: char, i: int)
    ensures
        match first_at(s, c, i) {
            Some(k) => i <= k < s.len() && s[k] == c && 0 <= k,
            None => true,
        },
    decreases s.len() - i,
{
    if 0 <= i < s.len() && s[i] != c {
        lemma_first_at(s, c, i + 1);
    }
}

/// What comes before the first `c` (all of `s` if there is none).
pub open spec fn before(s: Seq<char>, c: char) -> Seq<char> {
    match first_at(s, c, 0) {
        Some(k) => s.take(k),
        None => s,
    }
}

pub open spec fn is_digit(c: char) -> bool {
    '0' <= c <= '9'
}

pub open spec fn digit_val(c: char) -> nat {
    (c as u32 - '0' as u32) as nat
}

/// The value of a string of decimal digits.
pub open spec fn numeral(d: Seq<char>) -> nat
    decreases d.len(),
{
    if d.len() == 0 {
        0
    } else {
        numeral(d.drop_last()) * 10 + digit_val(d.last())
    }
}

pub open spec fn all_digits(d: Seq<char>) -> bool {
    forall|k: int| 0 <= k < d.len() ==> is_digit(#[trigger] d[k])
}

/// A `u8` in decimal, with an optional leading `+`.
pub open spec fn parse_u8(t: Seq<char>) -> Option<u8> {
    let d = if t.len() > 0 && t[0] == '+' {
        t.drop_first()
    } else {
        t
    };
    if d.len() > 0 && all_digits(d) && numeral(d) <= 255 {
        Some(numeral(d) as u8)
    } else {
        None
    }
}

/// `f-r`: file and rank; what follows a second `-` is ignored.
pub open spec fn parse_coord(t: Seq<char>) -> Option<Coord> {
    match first_at(t, '-', 0) {
        None => None,
        Some(k) => match (parse_u8(t.take(k)), parse_u8(before(t.skip(k + 1), '-'))) {
            (Some(f), Some(r)) => Some(Coord { file: f, rank: r }),
            _ => None,
        },
    }
}

/// `key=value` split at the first `=`, both trimmed; none without `=`.
pub open spec fn split_kv(f: Seq<char>) -> Option<(Seq<char>, Seq<char>)> {
    match first_at(f, '=', 0) {
        None => None,
        Some(k) => Some((trim(f.take(k)), trim(f.skip(k + 1)))),
    }
}

/// The lower-case form of the letters that name pieces; other characters unchanged.
pub open spec fn lower(c: char) -> char {
    if c == 'P' {
        'p'
    } else if c == 'R' {
        'r'
    } else if c == 'N' {
        'n'
    } else if c == 'B' {
        'b'
    } else if c == 'Q' {
        'q'
    } else if c == 'K' {
        'k'
    } else if c == 'M' {
        'm'
    } else if c == 'G' {
        'g'
    } else if c == 'S' {
        's'
    } else if c == 'U' {
        'u'
    } else {
        c
    }
}

pub open spec fn std_piece(l: char, c: Color) -> Option<PieceModel> {
    if l == 'p' {
        Some(PieceModel::Pawn(c))
    } else if l == 'r' {
        Some(PieceModel::Rook(c))
    } else if l == 'n' {
        Some(PieceModel::Knight(c))
    } else if l == 'b' {
        Some(PieceModel::Bishop(c))
    } else if l == 'q' {
        Some(PieceModel::Queen(c))
    } else if l == 'k' {
        Some(PieceModel::King(c))
    } else if l == 'm' {
        Some(PieceModel::Monkey(c))
    } else {
        None
    }
}

/// The piece a token names, its state included; none for an unknown token.
pub open spec fn sym_piece(sym: Seq<char>) -> Option<PieceModel>
    decreases sym.len(), 3int, 0int,
{
    let base = before(sym, '(');
    if base.len() == 1 {
        let ch = base[0];
        let l = lower(ch);
        if l == 'g' {
            goblin_from(sym)
        } else if l == 's' {
            skibidi_from(sym)
        } else {
            std_piece(
                l,
                if 'A' <= ch <= 'Z' {
                    Color::White
                } else {
                    Color::Black
                },
            )
        }
    } else if base.len() == 3 && lower(base[0]) == 'b' && lower(base[1]) == 'u' && lower(base[2])
        == 's' {
        bus_from(sym)
    } else {
        None
    }
}

/// The bracketed part of a token after its name: from the first `(` to its match.
pub open spec fn inside(sym: Seq<char>) -> Option<Option<Seq<char>>> {
    match first_at(sym, '(', 0) {
        None => Some(None),
        Some(start) => match match_from(sym, start, 0) {
            None => None,
            Some(end) => Some(Some(sym.subrange(start + 1, end))),
        },
    }
}

/// A Goblin: `G`/`g`, then `(H=f-r[,P=cargo])`; a missing home is (0, 0).
pub open spec fn goblin_from(sym: Seq<char>) -> Option<PieceModel>
    decreases sym.len(), 2int, 0int,
{
    if sym.len() == 0 || (sym[0] != 'G' && sym[0] != 'g') {
        None
    } else {
        let color = if sym[0] == 'G' {
            Color::White
        } else {
            Color::Black
        };
        match inside(sym) {
            None => None,
            Some(None) => Some(
                PieceModel::Goblin { color, cargo: None, home: Coord { file: 0, rank: 0 } },
            ),
            Some(Some(body)) => {
                let fields = split_top(body);
                match goblin_scan(sym.len(), fields, fields.len() as int) {
                    None => None,
                    Some(acc) => Some(
                        PieceModel::Goblin {
                            color,
                            cargo: match acc.1 {
                                Some(p) => Some(Box::new(p)),
                                None => None,
                            },
                            home: match acc.0 {
                                Some(h) => h,
                                None => Coord { file: 0, rank: 0 },
                            },
                        },
                    ),
                }
            },
        }
    }
}

/// The home and cargo read from the first `n` fields of a Goblin; none when a field
/// has no `=`.
pub open spec fn goblin_scan(bound: nat, fields: Seq<Seq<char>>, n: int) -> Option<
    (Option<Coord>, Option<PieceModel>),
>
    decreases bound, 1int, n,
{
    if n <= 0 {
        Some((None, None))
    } else {
        match goblin_scan(bound, fields, n - 1) {
            None => None,
            Some(acc) => match split_kv(fields[n - 1]) {
                None => None,
                Some(kv) => if kv.0 == seq!['H'] {
                    Some((parse_coord(kv.1), acc.1))
                } else if kv.0 == seq!['P'] {
                    Some(
                        (
                            acc.0,
                            if kv.1.len() < bound {
                                sym_piece(kv.1)
                            } else {
                                None
                            },
                        ),
                    )
                } else {
                    Some(acc)
                },
            },
        }
    }
}

/// A carrier: `BUS`/`bus` (the first letter gives the color), then `(P=(a,b,...))`;
/// unknown passenger tokens are skipped.
pub open spec fn bus_from(sym: Seq<char>) -> Option<PieceModel>
    decreases sym.len(), 2int, 0int,
{
    if sym.len() == 0 || (sym[0] != 'B' && sym[0] != 'b') {
        None
    } else {
        let color = if sym[0] == 'B' {
            Color::White
        } else {
            Color::Black
        };
        match inside(sym) {
            None => None,
            Some(None) => Some(PieceModel::Bus { color, passengers: seq![] }),
            Some(Some(body)) => {
                let fields = split_top(body);
                match bus_scan(sym.len(), fields, fields.len() as int) {
                    None => None,
                    Some(ps) => Some(PieceModel::Bus { color, passengers: ps }),
                }
            },
        }
    }
}

/// The passengers read from the first `n` fields of a carrier.
pub open spec fn bus_scan(bound: nat, fields: Seq<Seq<char>>, n: int) -> Option<Seq<PieceModel>>
    decreases bound, 1int, n,
{
    if n <= 0 {
        Some(seq![])
    } else {
        match bus_scan(bound, fields, n - 1) {
            None => None,
            Some(acc) => match split_kv(fields[n - 1]) {
                None => None,
                Some(kv) => if kv.0 == seq!['P'] && kv.1.len() >= 2 && kv.1[0] == '(' && kv.1.last()
                    == ')' {
                    let syms = split_top(kv.1.subrange(1, kv.1.len() - 1));
                    Some(acc + bus_list(bound, syms, syms.len() as int))
                } else {
                    Some(acc)
                },
            },
        }
    }
}

/// The pieces named by the first `n` tokens; unknown ones skipped.
pub open spec fn bus_list(bound: nat, syms: Seq<Seq<char>>, n: int) -> Seq<PieceModel>
    decreases bound, 0int, n,
{
    if n <= 0 {
        seq![]
    } else {
        let t = syms[n - 1];
        bus_list(bound, syms, n - 1) + match (if t.len() < bound {
            sym_piece(t)
        } else {
            None
        }) {
            Some(p) => seq![p],
            None => seq![],
        }
    }
}

/// A Skibidi: `S`/`s` (lower case black), then optionally `(PHASE=n)`; phase 1 when absent.
pub open spec fn skibidi_from(sym: Seq<char>) -> Option<PieceModel> {
    if sym.len() == 0 {
        None
    } else {
        let color = if 'a' <= sym[0] <= 'z' {
            Color::Black
        } else {
            Color::White
        };
        match inside(sym) {
            None => None,
            Some(None) => Some(PieceModel::Skibidi { color, phase: 1 }),
            Some(Some(body)) => {
                let fields = split_top(body);
                match skibidi_scan(fields, fields.len() as int) {
                    None => None,
                    Some(phase) => Some(PieceModel::Skibidi { color, phase }),
                }
            },
        }
    }
}

pub open spec fn phase_key() -> Seq<char> {
    "PHASE"@
}

pub open spec fn skibidi_scan(fields: Seq<Seq<char>>, n: int) -> Option<u8>
    decreases n,
{
    if n <= 0 {
        Some(1)
    } else {
        match skibidi_scan(fields, n - 1) {
            None => None,
            Some(ph) => match split_kv(fields[n - 1]) {
                None => None,
                Some(kv) => if kv.0 == phase_key() {
                    match parse_u8(kv.1) {
                        Some(v) => Some(v),
                        None => Some(ph),
                    }
                } else {
                    Some(ph)
                },
            },
        }
    }
}

/// A square read from its bracketed fields, the first `n` of them: `P=` sets the
/// piece, `T=` the terrain, `C=` adds a condition; unknown keys and values are ignored.
pub open spec fn square_scan(fields: Seq<Seq<char>>, n: int) -> SquareModel
    decreases n,
{
    if n <= 0 {
        SquareModel::empty()
    } else {
        let s = square_scan(fields, n - 1);
        let f = fields[n - 1];
        let key = match first_at(f, '=', 0) {
            Some(k) => trim(f.take(k)),
            None => trim(f),
        };
        let val = match first_at(f, '=', 0) {
            Some(k) => trim(f.skip(k + 1)),
            None => seq![],
        };
        if key == seq!['P'] {
            SquareModel { piece: sym_piece(val), ..s }
        } else if key == seq!['T'] {
            SquareModel { square_type: type_of(val), ..s }
        } else if key == seq!['C'] {
            if val == SquareCondition::Frozen.spec_as_str() {
                SquareModel { conditions: s.conditions.push(SquareCondition::Frozen), ..s }
            } else if val == SquareCondition::Brainrot.spec_as_str() {
                SquareModel { conditions: s.conditions.push(SquareCondition::Brainrot), ..s }
            } else {
                s
            }
        } else {
            s
        }
    }
}

pub open spec fn type_of(v: Seq<char>) -> SquareType {
    if v == SquareType::Turret.spec_as_str() {
        SquareType::Turret
    } else if v == SquareType::Vent.spec_as_str() {
        SquareType::Vent
    } else {
        SquareType::Standard
    }
}

/// One square's token: empty, bracketed fields, or a bare piece token.
pub open spec fn parse_square(t: Seq<char>) -> SquareModel {
    if t.len() == 0 || t == seq!['(', ')'] {
        SquareModel::empty()
    } else if t[0] == '(' && t.last() == ')' {
        let fields = split_top(t.subrange(1, t.len() - 1));
        square_scan(fields, fields.len() as int)
    } else {
        SquareModel { piece: sym_piece(t), square_type: SquareType::Standard, conditions: seq![] }
    }
}

/// Where the token that starts at `i` ends: after its closing bracket for a bracketed
/// token (the end of the row if it is never closed), else after one character.
pub open spec fn token_end(s: Seq<char>, i: int) -> int {
    if s[i] == '(' {
        match match_from(s, i, 0) {
            Some(k) => k + 1,
            None => s.len() as int,
        }
    } else {
        i + 1
    }
}

/// The squares of a row's text from index `i` on: a digit is that many empty squares.
pub open spec fn parse_row(s: Seq<char>, i: int) -> Seq<SquareModel>
    decreases s.len() - i,
{
    if i < 0 || i >= s.len() {
        seq![]
    } else if is_digit(s[i]) {
        Seq::new(digit_val(s[i]), |k: int| SquareModel::empty()) + parse_row(s, i + 1)
    } else {
        let j = token_end(s, i);
        if i < j <= s.len() {
            seq![parse_square(s.subrange(i, j))] + parse_row(s, j)
        } else {
            seq![]
        }
    }
}

pub open spec fn rows_scan(s: Seq<char>, i: int) -> (Seq<Seq<char>>, Seq<char>)
    decreases i,
{
    if i <= 0 {
        (seq![], seq![])
    } else {
        let st = rows_scan(s, i - 1);
        if s[i - 1] == '/' {
            (st.0.push(st.1), seq![])
        } else {
            (st.0, st.1.push(s[i - 1]))
        }
    }
}

/// The text cut at every `/`.
pub open spec fn split_rows(s: Seq<char>) -> Seq<Seq<char>> {
    let st = rows_scan(s, s.len() as int);
    st.0.push(st.1)
}

pub open spec fn default_flags() -> BoardFlags {
    BoardFlags {
        white_can_castle_kingside: true,
        white_can_castle_queenside: true,
        black_can_castle_kingside: true,
        black_can_castle_queenside: true,
        en_passant_target: None,
    }
}

/// The board a text describes: one row per `/`-separated part, default flags.
pub open spec fn decode(s: Seq<char>) -> BoardModel {
    let rows = split_rows(s);
    BoardModel {
        grid: Seq::new(rows.len(), |r: int| parse_row(rows[r], 0)),
        flags: default_flags(),
    }
}

pub open spec fn vv(x: Seq<Vec<char>>) -> Seq<Seq<char>> {
    x.map_values(|v: Vec<char>| v@)
}

fn slice_of(v: &Vec<char>, lo: usize, hi: usize) -> (r: Vec<char>)
    requires
        lo <= hi <= v@.len(),
    ensures
        r@ == v@.subrange(lo as int, hi as int),
{
    let mut out: Vec<char> = Vec::new();
    let mut i: usize = lo;
    while i < hi
        invariant
            lo <= i <= hi,
            hi <= v@.len(),
            out@ == v@.subrange(lo as int, i as int),
        decreases hi - i,
    {
        out.push(v[i]);
        i += 1;
        assert(out@ =~= v@.subrange(lo as int, i as int));
    }
    out
}

fn ws(c: char) -> (r: bool)
    ensures
        r == is_ws(c),
{
    c == ' ' || c == '\t' || c == '\n' || c == '\r'
}

fn trim_chars(v: &Vec<char>) -> (r: Vec<char>)
    ensures
        r@ == trim(v@),
{
    let n = v.len();
    let mut i: usize = 0;
    while i < n && ws(v[i])
        invariant
            i <= n,
            n == v@.len(),
            lead_end(v@, 0) == lead_end(v@, i as int),
        decreases n - i,
    {
        i += 1;
    }
    let mut j: usize = n;
    while j > i && ws(v[j - 1])
        invariant
            i <= j <= n,
            n == v@.len(),
            lead_end(v@, 0) == i,
            trail_end(v@, n as int, i as int) == trail_end(v@, j as int, i as int),
        decreases j,
    {
        j -= 1;
    }
    slice_of(v, i, j)
}

fn first_index(v: &Vec<char>, c: char, from: usize) -> (r: Option<usize>)
    ensures
        match first_at(v@, c, from as int) {
            Some(k) => r == Some(k as usize) && from <= k < v@.len(),
            None => r is None,
        },
        match r {
            Some(k) => from <= k < v@.len() && v@[k as int] == c,
            None => true,
        },
{
    proof {
        lemma_first_at(v@, c, from as int);
    }
    let mut i: usize = from;
    while i < v.len()
        invariant
            from <= i,
            first_at(v@, c, from as int) == first_at(v@, c, i as int),
        decreases v@.len() - i,
    {
        if v[i] == c {
            return Some(i);
        }
        i += 1;
    }
    None
}

fn match_paren(v: &Vec<char>, open: usize) -> (r: Option<usize>)
    ensures
        match match_from(v@, open as int, 0) {
            Some(k) => r == Some(k as usize) && open <= k < v@.len() && v@[k] == ')',
            None => r is None,
        },
{
    proof {
        lemma_match_from(v@, open as int, 0);
    }
    if open >= v.len() {
        return None;
    }
    let mut up: usize = 0;
    let mut down: usize = 0;
    let mut k: usize = open;
    while k < v.len()
        invariant
            open <= k <= v@.len(),
            up == 0 || down == 0,
            up + down <= k - open,
            match_from(v@, open as int, 0) == match_from(v@, k as int, up - down),
        decreases v@.len() - k,
    {
        let c = v[k];
        if c == '(' {
            if down > 0 {
                down -= 1;
            } else {
                up += 1;
            }
        } else if c == ')' {
            if up == 1 && down == 0 {
                return Some(k);
            }
            if up > 0 {
                up -= 1;
            } else {
                down += 1;
            }
        }
        k += 1;
    }
    None
}

fn split_kv_chars(f: &Vec<char>) -> (r: Option<(Vec<char>, Vec<char>)>)
    ensures
        match split_kv(f@) {
            Some(kv) => match r {
                Some(pair) => pair.0@ == kv.0 && pair.1@ == kv.1,
                None => false,
            },
            None => r is None,
        },
{
    let n = f.len();
    match first_index(f, '=', 0) {
        None => None,
        Some(k) => {
            let key = trim_chars(&slice_of(f, 0, k));
            let val = trim_chars(&slice_of(f, k + 1, n));
            assert(f@.take(k as int) =~= f@.subrange(0, k as int));
            assert(f@.skip(k + 1) =~= f@.subrange(k + 1, f@.len() as int));
            Some((key, val))
        },
    }
}

fn split_top_chars(s: &Vec<char>) -> (r: Vec<Vec<char>>)
    ensures
        vv(r@) == split_top(s@),
{
    let mut parts: Vec<Vec<char>> = Vec::new();
    let mut buf: Vec<char> = Vec::new();
    let mut depth: usize = 0;
    let mut i: usize = 0;
    while i < s.len()
        invariant
            i <= s@.len(),
            depth <= i,
            (vv(parts@), buf@, depth as nat) == split_scan(s@, i as int),
        decreases s@.len() - i,
    {
        let c = s[i];
        let ghost st = split_scan(s@, i as int);
        if c == '(' {
            depth += 1;
            buf.push(c);
        } else if c == ')' {
            if depth > 0 {
                depth -= 1;
            }
            buf.push(c);
        } else if c == ',' && depth == 0 {
            let t = trim_chars(&buf);
            parts.push(t);
            buf = Vec::new();
            assert(vv(parts@) =~= st.0.push(trim(st.1)));
            assert(buf@ =~= Seq::<char>::empty());
        } else {
            buf.push(c);
        }
        i += 1;
    }
    if buf.len() > 0 {
        let t = trim_chars(&buf);
        let ghost before = parts@;
        parts.push(t);
        assert(vv(parts@) =~= vv(before).push(t@));
    }
    parts
}

/// Splits `input` at the commas that stand outside brackets; each part is trimmed, and
/// a final empty part is dropped.
pub fn split_top_level(input: &str) -> (r: Vec<String>)
    ensures
        r@.len() == split_top(input@).len(),
        forall|k: int| 0 <= k < r@.len() ==> (#[trigger] r@[k])@ == split_top(input@)[k],
{
    let cs = str_chars(input);
    let parts = split_top_chars(&cs);
    let mut out: Vec<String> = Vec::new();
    let mut i: usize = 0;
    while i < parts.len()
        invariant
            i <= parts@.len(),
            vv(parts@) == split_top(input@),
            out@.len() == i,
            forall|k: int| 0 <= k < i ==> (#[trigger] out@[k])@ == split_top(input@)[k],
        decreases parts@.len() - i,
    {
        assert(vv(parts@)[i as int] == parts@[i as int]@);
        out.push(crate::codec::string_of(&parts[i]));
        i += 1;
    }
    out
}

/// The character index of the `)` that closes the `(` at `open_index`: the first point
/// after it where the bracket depth returns to zero.
pub fn find_matching_paren(s: &str, open_index: usize) -> (r: Option<usize>)
    ensures
        match match_from(s@, open_index as int, 0) {
            Some(k) => r == Some(k as usize),
            None => r is None,
        },
{
    let cs = str_chars(s);
    match_paren(&cs, open_index)
}

proof fn lemma_numeral_grows(d: Seq<char>, j: int)
    requires
        0 <= j <= d.len(),
    ensures
        numeral(d.take(j)) <= numeral(d),
    decreases d.len(),
{
    if j < d.len() {
        lemma_numeral_grows(d.drop_last(), j);
        assert(d.drop_last().take(j) =~= d.take(j));
    } else {
        assert(d.take(j) =~= d);
    }
}

fn is_word(v: &Vec<char>, w: &str) -> (r: bool)
    ensures
        r == (v@ == w@),
{
    let ws = str_chars(w);
    if v.len() != ws.len() {
        return false;
    }
    let mut i: usize = 0;
    while i < v.len()
        invariant
            i <= v@.len(),
            v@.len() == ws@.len(),
            ws@ == w@,
            forall|k: int| 0 <= k < i ==> v@[k] == ws@[k],
        decreases v@.len() - i,
    {
        if v[i] != ws[i] {
            return false;
        }
        i += 1;
    }
    assert(v@ =~= ws@);
    true
}

fn is_key(v: &Vec<char>, c: char) -> (r: bool)
    ensures
        r == (v@ == seq![c]),
{
    if v.len() == 1 && v[0] == c {
        assert(v@ =~= seq![c]);
        true
    } else {
        false
    }
}

fn parse_u8_chars(t: &Vec<char>) -> (r: Option<u8>)
    ensures
        r == parse_u8(t@),
{
    let n = t.len();
    let start: usize = if n > 0 && t[0] == '+' {
        1
    } else {
        0
    };
    let d = slice_of(t, start, n);
    proof {
        if start == 1 {
            assert(d@ =~= t@.drop_first());
        } else {
            assert(d@ =~= t@);
        }
    }
    if d.len() == 0 {
        return None;
    }
    let mut v: u32 = 0;
    let mut i: usize = 0;
    while i < d.len()
        invariant
            d@ == (if t@.len() > 0 && t@[0] == '+' {
                t@.drop_first()
            } else {
                t@
            }),
            i <= d@.len(),
            all_digits(d@.take(i as int)),
            v == numeral(d@.take(i as int)),
            v <= 255,
        decreases d@.len() - i,
    {
        let c = d[i];
        if !('0' <= c && c <= '9') {
            assert(!is_digit(d@[i as int]));
            assert(!all_digits(d@));
            return None;
        }
        let nv: u32 = v * 10 + (c as u32 - '0' as u32);
        proof {
            assert(d@.take(i + 1).drop_last() =~= d@.take(i as int));
            assert(numeral(d@.take(i + 1)) == nv);
            assert(all_digits(d@.take(i + 1)));
        }
        if nv > 255 {
            proof {
                if all_digits(d@) {
                    lemma_numeral_grows(d@, i + 1);
                }
            }
            return None;
        }
        v = nv;
        i += 1;
    }
    assert(d@.take(d@.len() as int) =~= d@);
    Some(v as u8)
}

fn before_chars(v: &Vec<char>, c: char) -> (r: Vec<char>)
    ensures
        r@ == before(v@, c),
{
    let n = v.len();
    match first_index(v, c, 0) {
        Some(k) => {
            let r = slice_of(v, 0, k);
            assert(r@ =~= v@.take(k as int));
            r
        },
        None => {
            let r = slice_of(v, 0, n);
            assert(r@ =~= v@);
            r
        },
    }
}

fn parse_coord_chars(t: &Vec<char>) -> (r: Option<Coord>)
    ensures
        r == parse_coord(t@),
{
    let n = t.len();
    match first_index(t, '-', 0) {
        None => None,
        Some(k) => {
            let a = slice_of(t, 0, k);
            let rest = slice_of(t, k + 1, n);
            assert(a@ =~= t@.take(k as int));
            assert(rest@ =~= t@.skip(k + 1));
            let b = before_chars(&rest, '-');
            match (parse_u8_chars(&a), parse_u8_chars(&b)) {
                (Some(f), Some(r)) => Some(Coord { file: f, rank: r }),
                _ => None,
            }
        },
    }
}

fn lower_of(c: char) -> (r: char)
    ensures
        r == lower(c),
{
    if c == 'P' {
        'p'
    } else if c == 'R' {
        'r'
    } else if c == 'N' {
        'n'
    } else if c == 'B' {
        'b'
    } else if c == 'Q' {
        'q'
    } else if c == 'K' {
        'k'
    } else if c == 'M' {
        'm'
    } else if c == 'G' {
        'g'
    } else if c == 'S' {
        's'
    } else if c == 'U' {
        'u'
    } else {
        c
    }
}

fn std_piece_exec(l: char, c: Color) -> (r: Option<PieceType>)
    ensures
        crate::board::piece_opt_model(r) == std_piece(l, c),
{
    if l == 'p' {
        Some(PieceType::Pawn(crate::pieces::Pawn { color: c }))
    } else if l == 'r' {
        Some(PieceType::Rook(crate::pieces::Rook { color: c }))
    } else if l == 'n' {
        Some(PieceType::Knight(crate::pieces::Knight { color: c }))
    } else if l == 'b' {
        Some(PieceType::Bishop(crate::pieces::Bishop { color: c }))
    } else if l == 'q' {
        Some(PieceType::Queen(crate::pieces::Queen { color: c }))
    } else if l == 'k' {
        Some(PieceType::King(crate::pieces::King { color: c }))
    } else if l == 'm' {
        Some(PieceType::Monkey(crate::pieces::Monkey { color: c }))
    } else {
        None
    }
}

fn inside_chars(sym: &Vec<char>) -> (r: Option<Option<Vec<char>>>)
    ensures
        match inside(sym@) {
            None => r is None,
            Some(None) => r == Some(None::<Vec<char>>),
            Some(Some(body)) => match r {
                Some(Some(b)) => b@ == body,
                _ => false,
            },
        },
{
    let n = sym.len();
    match first_index(sym, '(', 0) {
        None => Some(None),
        Some(start) => match match_paren(sym, start) {
            None => None,
            Some(end) => Some(Some(slice_of(sym, start + 1, end))),
        },
    }
}

fn piece_from_chars(sym: &Vec<char>) -> (r: Option<PieceType>)
    ensures
        crate::board::piece_opt_model(r) == sym_piece(sym@),
    decreases sym@.len(), 3int, 0int,
{
    let base = before_chars(sym, '(');
    if base.len() == 1 {
        let ch = base[0];
        let l = lower_of(ch);
        if l == 'g' {
            goblin_from_chars(sym)
        } else if l == 's' {
            skibidi_from_chars(sym)
        } else {
            let color = if 'A' <= ch && ch <= 'Z' {
                Color::White
            } else {
                Color::Black
            };
            std_piece_exec(l, color)
        }
    } else if base.len() == 3 && lower_of(base[0]) == 'b' && lower_of(base[1]) == 'u' && lower_of(
        base[2],
    ) == 's' {
        bus_from_chars(sym)
    } else {
        None
    }
}

fn goblin_from_chars(sym: &Vec<char>) -> (r: Option<PieceType>)
    ensures
        crate::board::piece_opt_model(r) == goblin_from(sym@),
    decreases sym@.len(), 2int, 0int,
{
    let n = sym.len();
    if n == 0 || (sym[0] != 'G' && sym[0] != 'g') {
        return None;
    }
    let color = if sym[0] == 'G' {
        Color::White
    } else {
        Color::Black
    };
    let body = match inside_chars(sym) {
        None => {
            return None;
        },
        Some(None) => {
            return Some(
                PieceType::Goblin(
                    Goblin { color, state: GoblinState::Free, home_square: Coord { file: 0, rank: 0 } },
                ),
            );
        },
        Some(Some(b)) => b,
    };
    let fields = split_top_chars(&body);
    let mut home: Option<Coord> = None;
    let mut cargo: Option<PieceType> = None;
    let mut failed = false;
    let mut i: usize = 0;
    while i < fields.len()
        invariant
            n == sym@.len(),
            i <= fields@.len(),
            goblin_scan(n as nat, vv(fields@), i as int) == if failed {
                None
            } else {
                Some((home, crate::board::piece_opt_model(cargo)))
            },
        decreases fields@.len() - i,
    {
        assert(vv(fields@)[i as int] == fields@[i as int]@);
        if !failed {
            match split_kv_chars(&fields[i]) {
                None => {
                    failed = true;
                },
                Some((key, val)) => {
                    if is_key(&key, 'H') {
                        home = parse_coord_chars(&val);
                    } else if is_key(&key, 'P') {
                        cargo = if val.len() < n {
                            piece_from_chars(&val)
                        } else {
                            None
                        };
                    }
                },
            }
        }
        i += 1;
    }
    if failed {
        return None;
    }
    let state = match cargo {
        Some(p) => GoblinState::Kidnapping { piece: Box::new(p) },
        None => GoblinState::Free,
    };
    let home_square = match home {
        Some(h) => h,
        None => Coord { file: 0, rank: 0 },
    };
    Some(PieceType::Goblin(Goblin { color, state, home_square }))
}

fn skibidi_from_chars(sym: &Vec<char>) -> (r: Option<PieceType>)
    ensures
        crate::board::piece_opt_model(r) == skibidi_from(sym@),
{
    let n = sym.len();
    if n == 0 {
        return None;
    }
    let color = if 'a' <= sym[0] && sym[0] <= 'z' {
        Color::Black
    } else {
        Color::White
    };
    let body = match inside_chars(sym) {
        None => {
            return None;
        },
        Some(None) => {
            return Some(PieceType::Skibidi(Skibidi { color, phase: 1 }));
        },
        Some(Some(b)) => b,
    };
    let fields = split_top_chars(&body);
    let mut phase: u8 = 1;
    let mut failed = false;
    let mut i: usize = 0;
    while i < fields.len()
        invariant
            i <= fields@.len(),
            skibidi_scan(vv(fields@), i as int) == if failed {
                None
            } else {
                Some(phase)
            },
        decreases fields@.len() - i,
    {
        assert(vv(fields@)[i as int] == fields@[i as int]@);
        if !failed {
            match split_kv_chars(&fields[i]) {
                None => {
                    failed = true;
                },
                Some((key, val)) => {
                    if is_word(&key, "PHASE") {
                        match parse_u8_chars(&val) {
                            Some(v) => {
                                phase = v;
                            },
                            None => {},
                        }
                    }
                },
            }
        }
        i += 1;
    }
    if failed {
        return None;
    }
    Some(PieceType::Skibidi(Skibidi { color, phase }))
}

fn bus_from_chars(sym: &Vec<char>) -> (r: Option<PieceType>)
    ensures
        crate::board::piece_opt_model(r) == bus_from(sym@),
    decreases sym@.len(), 2int, 0int,
{
    let n = sym.len();
    if n == 0 || (sym[0] != 'B' && sym[0] != 'b') {
        return None;
    }
    let color = if sym[0] == 'B' {
        Color::White
    } else {
        Color::Black
    };
    let body = match inside_chars(sym) {
        None => {
            return None;
        },
        Some(None) => {
            let b = Bus { color, pieces: Vec::new() };
            proof {
                crate::pieces::lemma_bus_model(b);
                assert(crate::pieces::models_of(b.pieces@) =~= Seq::<PieceModel>::empty());
            }
            return Some(PieceType::Bus(b));
        },
        Some(Some(b)) => b,
    };
    let fields = split_top_chars(&body);
    let mut pieces: Vec<PieceType> = Vec::new();
    let mut failed = false;
    let mut i: usize = 0;
    assert(crate::pieces::models_of(pieces@) =~= Seq::<PieceModel>::empty());
    while i < fields.len()
        invariant
            n == sym@.len(),
            i <= fields@.len(),
            bus_scan(n as nat, vv(fields@), i as int) == if failed {
                None
            } else {
                Some(crate::pieces::models_of(pieces@))
            },
        decreases fields@.len() - i,
    {
        assert(vv(fields@)[i as int] == fields@[i as int]@);
        if !failed {
            match split_kv_chars(&fields[i]) {
                None => {
                    failed = true;
                },
                Some((key, val)) => {
                    let vn = val.len();
                    if is_key(&key, 'P') && vn >= 2 && val[0] == '(' && val[vn - 1] == ')' {
                        let inner = slice_of(&val, 1, vn - 1);
                        let syms = split_top_chars(&inner);
                        let ghost acc = crate::pieces::models_of(pieces@);
                        let mut k: usize = 0;
                        while k < syms.len()
                            invariant
                                n == sym@.len(),
                                k <= syms@.len(),
                                crate::pieces::models_of(pieces@) == acc + bus_list(
                                    n as nat,
                                    vv(syms@),
                                    k as int,
                                ),
                            decreases syms@.len() - k,
                        {
                            let t = &syms[k];
                            assert(vv(syms@)[k as int] == t@);
                            let ghost before = pieces@;
                            if t.len() < n {
                                match piece_from_chars(t) {
                                    Some(p) => {
                                        pieces.push(p);
                                        assert(crate::pieces::models_of(pieces@) =~= crate::pieces::models_of(before).push(pieces@.last()@));
                                    },
                                    None => {},
                                }
                            }
                            k += 1;
                            assert(crate::pieces::models_of(pieces@) =~= acc + bus_list(
                                n as nat,
                                vv(syms@),
                                k as int,
                            ));
                        }
                    }
                },
            }
        }
        i += 1;
    }
    if failed {
        return None;
    }
    let b = Bus { color, pieces };
    proof {
        crate::pieces::lemma_bus_model(b);
    }
    Some(PieceType::Bus(b))
}

impl PieceType {
    /// The piece a notation token names, with its state; none for an unknown token.
    pub fn symbol_to_piece(symbol: &str) -> (r: Option<PieceType>)
        ensures
            crate::board::piece_opt_model(r) == sym_piece(symbol@),
    {
        let cs = str_chars(symbol);
        piece_from_chars(&cs)
    }
}

impl Goblin {
    /// Reads a Goblin token: `G` white, `g` black, then `(H=f-r[,P=cargo])`.
    pub fn from_symbol(symbol: &str) -> (r: Option<PieceType>)
        ensures
            crate::board::piece_opt_model(r) == goblin_from(symbol@),
    {
        let cs = str_chars(symbol);
        goblin_from_chars(&cs)
    }
}

impl Skibidi {
    /// Reads a Skibidi token: `s` black, `S` white, then optionally `(PHASE=n)`.
    pub fn from_symbol(symbol: &str) -> (r: Option<PieceType>)
        ensures
            crate::board::piece_opt_model(r) == skibidi_from(symbol@),
    {
        let cs = str_chars(symbol);
        skibidi_from_chars(&cs)
    }
}

impl Bus {
    /// Reads a carrier token: `BUS` white, `bus` black, then optionally `(P=(a,b,...))`.
    pub fn from_symbol(symbol: &str) -> (r: Option<PieceType>)
        ensures
            crate::board::piece_opt_model(r) == bus_from(symbol@),
    {
        let cs = str_chars(symbol);
        bus_from_chars(&cs)
    }
}

fn type_of_chars(v: &Vec<char>) -> (r: SquareType)
    ensures
        r == type_of(v@),
{
    if is_word(v, SquareType::Turret.as_str()) {
        SquareType::Turret
    } else if is_word(v, SquareType::Vent.as_str()) {
        SquareType::Vent
    } else {
        SquareType::Standard
    }
}

fn square_from_chars(t: &Vec<char>) -> (r: Square)
    ensures
        r@ == parse_square(t@),
{
    let n = t.len();
    if n == 0 || (n == 2 && t[0] == '(' && t[1] == ')') {
        proof {
            if n == 2 {
                assert(t@ =~= seq!['(', ')']);
            }
        }
        return Square::new();
    }
    proof {
        if t@ == seq!['(', ')'] {
            assert(t@[0] == '(' && t@[1] == ')');
        }
    }
    if t[0] == '(' && t[n - 1] == ')' {
        let inner = slice_of(t, 1, n - 1);
        let fields = split_top_chars(&inner);
        let mut sq = Square::new();
        let mut i: usize = 0;
        while i < fields.len()
            invariant
                i <= fields@.len(),
                sq@ == square_scan(vv(fields@), i as int),
            decreases fields@.len() - i,
        {
            let f = &fields[i];
            assert(vv(fields@)[i as int] == f@);
            let fl = f.len();
            let (key, val) = match first_index(f, '=', 0) {
                Some(k) => {
                    assert(f@.take(k as int) =~= f@.subrange(0, k as int));
                    assert(f@.skip(k + 1) =~= f@.subrange(k + 1, fl as int));
                    (trim_chars(&slice_of(f, 0, k)), trim_chars(&slice_of(f, k + 1, fl)))
                },
                None => {
                    let e: Vec<char> = Vec::new();
                    assert(e@ =~= Seq::<char>::empty());
                    (trim_chars(f), e)
                },
            };
            if is_key(&key, 'P') {
                sq.piece = piece_from_chars(&val);
            } else if is_key(&key, 'T') {
                sq.square_type = type_of_chars(&val);
            } else if is_key(&key, 'C') {
                if is_word(&val, SquareCondition::Frozen.as_str()) {
                    sq.conditions.push(SquareCondition::Frozen);
                } else if is_word(&val, SquareCondition::Brainrot.as_str()) {
                    sq.conditions.push(SquareCondition::Brainrot);
                }
            }
            i += 1;
        }
        return sq;
    }
    Square { piece: piece_from_chars(t), square_type: SquareType::Standard, conditions: Vec::new() }
}

/// Reads one square's token: empty, bracketed `P=`/`T=`/`C=` fields, or a bare piece.
/// Unknown keys and values are ignored.
pub fn fen_to_square(fen: &str) -> (r: Square)
    ensures
        r@ == parse_square(fen@),
{
    let cs = str_chars(fen);
    square_from_chars(&cs)
}

fn row_from_chars(s: &Vec<char>) -> (r: Vec<Square>)
    ensures
        crate::board::row_model(r@) == parse_row(s@, 0),
{
    let ghost target = parse_row(s@, 0);
    let n = s.len();
    let mut out: Vec<Square> = Vec::new();
    let mut i: usize = 0;
    assert(crate::board::row_model(out@) =~= Seq::<SquareModel>::empty());
    while i < n
        invariant
            n == s@.len(),
            i <= n,
            crate::board::row_model(out@) + parse_row(s@, i as int) == target,
        decreases n - i,
    {
        let c = s[i];
        let ghost before = crate::board::row_model(out@);
        if '0' <= c && c <= '9' {
            let count = (c as u32 - '0' as u32) as usize;
            let mut k: usize = 0;
            while k < count
                invariant
                    k <= count,
                    crate::board::row_model(out@) == before + Seq::new(
                        k as nat,
                        |j: int| SquareModel::empty(),
                    ),
                decreases count - k,
            {
                let ghost prev = out@;
                let e = Square::new();
                out.push(e);
                assert(out@ =~= prev.push(e));
                assert(crate::board::row_model(out@) =~= crate::board::row_model(prev).push(SquareModel::empty()));
                k += 1;
                assert(crate::board::row_model(out@) =~= before + Seq::new(
                    k as nat,
                    |j: int| SquareModel::empty(),
                ));
            }
            assert(before + parse_row(s@, i as int) =~= crate::board::row_model(out@) + parse_row(
                s@,
                i + 1,
            ));
            i += 1;
        } else {
            let j: usize = if c == '(' {
                match match_paren(s, i) {
                    Some(k) => k + 1,
                    None => n,
                }
            } else {
                i + 1
            };
            assert(j == token_end(s@, i as int));
            let tok = slice_of(s, i, j);
            let sq = square_from_chars(&tok);
            out.push(sq);
            assert(crate::board::row_model(out@) =~= before.push(parse_square(s@.subrange(i as int, j as int))));
            assert(before + parse_row(s@, i as int) =~= crate::board::row_model(out@) + parse_row(
                s@,
                j as int,
            ));
            i = j;
        }
    }
    assert(crate::board::row_model(out@) =~= crate::board::row_model(out@) + Seq::<SquareModel>::empty());
    out
}

fn split_rows_chars(s: &Vec<char>) -> (r: Vec<Vec<char>>)
    ensures
        vv(r@) == split_rows(s@),
{
    let mut parts: Vec<Vec<char>> = Vec::new();
    let mut cur: Vec<char> = Vec::new();
    let mut i: usize = 0;
    while i < s.len()
        invariant
            i <= s@.len(),
            (vv(parts@), cur@) == rows_scan(s@, i as int),
        decreases s@.len() - i,
    {
        let c = s[i];
        let ghost st = rows_scan(s@, i as int);
        if c == '/' {
            let done = cur;
            parts.push(done);
            cur = Vec::new();
            assert(vv(parts@) =~= st.0.push(st.1));
            assert(cur@ =~= Seq::<char>::empty());
        } else {
            cur.push(c);
        }
        i += 1;
    }
    let ghost st = rows_scan(s@, s@.len() as int);
    parts.push(cur);
    assert(vv(parts@) =~= st.0.push(st.1));
    parts
}

/// Reads a board from the notation: rows split at `/`, each row's tokens in order.
/// Reading never fails: unknown tokens give empty squares or are skipped.
pub fn fen_to_board(fen: &str) -> (r: Board)
    ensures
        r@ == decode(fen@),
{
    let cs = str_chars(fen);
    let rows = split_rows_chars(&cs);
    let ghost rv = vv(rows@);
    let mut grid: Vec<Vec<Square>> = Vec::new();
    let mut i: usize = 0;
    while i < rows.len()
        invariant
            i <= rows@.len(),
            rv == vv(rows@),
            grid@.len() == i,
            forall|k: int|
                0 <= k < i ==> crate::board::row_model((#[trigger] grid@[k])@) == parse_row(
                    rv[k],
                    0,
                ),
        decreases rows@.len() - i,
    {
        assert(rv[i as int] == rows@[i as int]@);
        grid.push(row_from_chars(&rows[i]));
        i += 1;
    }
    let b = Board {
        grid,
        flags: BoardFlags {
            white_can_castle_kingside: true,
            white_can_castle_queenside: true,
            black_can_castle_kingside: true,
            black_can_castle_queenside: true,
            en_passant_target: None,
        },
    };
    assert(b@.grid =~= decode(fen@).grid);
    b
}

} // verus!
