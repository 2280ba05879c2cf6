use vstd::prelude::*;

use crate::SolverError;
use vstd::string::StrSliceExecFns;
use vstd::string::StringExecFns;

verus! {

/// One generator move: a face turned a quarter clockwise, a quarter
/// counter-clockwise (prime), or half way around.
#[derive(Clone, Copy, Debug, PartialEq, Eq, Structural)]
pub enum Move {
    U,
    UPrime,
    U2,
    F,
    FPrime,
    F2,
    R,
    RPrime,
    R2,
    D,
    DPrime,
    D2,
    B,
    BPrime,
    B2,
    L,
    LPrime,
    L2,
}

pub open spec fn move_index_spec(m: Move) -> int {
    match m {
        Move::U => 0,
        Move::UPrime => 1,
        Move::U2 => 2,
        Move::F => 3,
        Move::FPrime => 4,
        Move::F2 => 5,
        Move::R => 6,
        Move::RPrime => 7,
        Move::R2 => 8,
        Move::D => 9,
        Move::DPrime => 10,
        Move::D2 => 11,
        Move::B => 12,
        Move::BPrime => 13,
        Move::B2 => 14,
        Move::L => 15,
        Move::LPrime => 16,
        Move::L2 => 17,
    }
}

/// The move that undoes `m`: primes and quarters swap, half turns stay.
pub open spec fn inverse_spec(m: Move) -> Move {
    match m {
        Move::U => Move::UPrime,
        Move::UPrime => Move::U,
        Move::U2 => Move::U2,
        Move::F => Move::FPrime,
        Move::FPrime => Move::F,
        Move::F2 => Move::F2,
        Move::R => Move::RPrime,
        Move::RPrime => Move::R,
        Move::R2 => Move::R2,
        Move::D => Move::DPrime,
        Move::DPrime => Move::D,
        Move::D2 => Move::D2,
        Move::B => Move::BPrime,
        Move::BPrime => Move::B,
        Move::B2 => Move::B2,
        Move::L => Move::LPrime,
        Move::LPrime => Move::L,
        Move::L2 => Move::L2,
    }
}

/// A half turn is its own inverse; the other moves pair up.
pub open spec fn is_half_turn(m: Move) -> bool {
    move_index_spec(m) % 3 == 2
}

impl Move {
    /// The position of this move in the fixed generator order.
    pub fn index(&self) -> (r: usize)
        ensures
            r == move_index_spec(*self),
            r < 18,
    {
        match self {
            Move::U => 0,
            Move::UPrime => 1,
            Move::U2 => 2,
            Move::F => 3,
            Move::FPrime => 4,
            Move::F2 => 5,
            Move::R => 6,
            Move::RPrime => 7,
            Move::R2 => 8,
            Move::D => 9,
            Move::DPrime => 10,
            Move::D2 => 11,
            Move::B => 12,
            Move::BPrime => 13,
            Move::B2 => 14,
            Move::L => 15,
            Move::LPrime => 16,
            Move::L2 => 17,
        }
    }

    /// The move that undoes this one.
    pub fn inverse(&self) -> (r: Move)
        ensures
            r == inverse_spec(*self),
    {
        match self {
            Move::U => Move::UPrime,
            Move::UPrime => Move::U,
            Move::U2 => Move::U2,
            Move::F => Move::FPrime,
            Move::FPrime => Move::F,
            Move::F2 => Move::F2,
            Move::R => Move::RPrime,
            Move::RPrime => Move::R,
            Move::R2 => Move::R2,
            Move::D => Move::DPrime,
            Move::DPrime => Move::D,
            Move::D2 => Move::D2,
            Move::B => Move::BPrime,
            Move::BPrime => Move::B,
            Move::B2 => Move::B2,
            Move::L => Move::LPrime,
            Move::LPrime => Move::L,
            Move::L2 => Move::L2,
        }
    }
}

/// The eighteen generator moves in index order.
pub open spec fn all_moves_spec() -> Seq<Move> {
    seq![
        Move::U,
        Move::UPrime,
        Move::U2,
        Move::F,
        Move::FPrime,
        Move::F2,
        Move::R,
        Move::RPrime,
        Move::R2,
        Move::D,
        Move::DPrime,
        Move::D2,
        Move::B,
        Move::BPrime,
        Move::B2,
        Move::L,
        Move::LPrime,
        Move::L2,
    ]
}

/// The eighteen generator moves, in index order.
pub fn all_moves() -> (r: Vec<Move>)
    ensures
        r@ == all_moves_spec(),
        r@.len() == 18,
        forall|k: int| 0 <= k < 18 ==> move_index_spec(#[trigger] r@[k]) == k,
{
    let r: Vec<Move> = vec![
        Move::U,
        Move::UPrime,
        Move::U2,
        Move::F,
        Move::FPrime,
        Move::F2,
        Move::R,
        Move::RPrime,
        Move::R2,
        Move::D,
        Move::DPrime,
        Move::D2,
        Move::B,
        Move::BPrime,
        Move::B2,
        Move::L,
        Move::LPrime,
        Move::L2,
    ];
    proof {
        assert(r@ =~= all_moves_spec());
        assert forall|k: int| 0 <= k < 18 implies move_index_spec(#[trigger] r@[k]) == k by {
            assert(r@[k] == all_moves_spec()[k]);
        }
    }
    r
}

// ---------------------------------------------------------------------------
// The move-token grammar: one face letter, optionally followed by `'` or `2`;
// tokens are separated by whitespace.
// ---------------------------------------------------------------------------

pub open spec fn is_space_char(c: char) -> bool {
    c == ' ' || c == '\t' || c == '\n' || c == '\r'
}

pub open spec fn is_face_char(c: char) -> bool {
    c == 'U' || c == 'D' || c == 'F' || c == 'B' || c == 'L' || c == 'R'
}

/// The quarter turn of a face letter (meaningful only for face letters).
pub open spec fn quarter_of(c: char) -> Move {
    if c == 'U' {
        Move::U
    } else if c == 'D' {
        Move::D
    } else if c == 'F' {
        Move::F
    } else if c == 'B' {
        Move::B
    } else if c == 'L' {
        Move::L
    } else {
        Move::R
    }
}

pub open spec fn prime_of(m: Move) -> Move {
    match m {
        Move::U => Move::UPrime,
        Move::D => Move::DPrime,
        Move::F => Move::FPrime,
        Move::B => Move::BPrime,
        Move::L => Move::LPrime,
        Move::R => Move::RPrime,
        _ => m,
    }
}

pub open spec fn double_of(m: Move) -> Move {
    match m {
        Move::U => Move::U2,
        Move::D => Move::D2,
        Move::F => Move::F2,
        Move::B => Move::B2,
        Move::L => Move::L2,
        Move::R => Move::R2,
        _ => m,
    }
}

/// The token starting at the head of `s` (`s` nonempty, head not a space):
/// the move it names and how many characters it takes, or nothing.
pub open spec fn token_at(s: Seq<char>) -> Option<(Move, int)> {
    if !is_face_char(s[0]) {
        None
    } else if s.len() >= 2 && s[1] == '\'' {
        Some((prime_of(quarter_of(s[0])), 2))
    } else if s.len() >= 2 && s[1] == '2' {
        Some((double_of(quarter_of(s[0])), 2))
    } else {
        Some((quarter_of(s[0]), 1))
    }
}

/// Parses a whole move string: whitespace-separated tokens, each a face
/// letter with an optional `'` or `2` suffix.  `None` on any unrecognized
/// token.
pub open spec fn parse_spec(s: Seq<char>) -> Option<Seq<Move>>
    decreases s.len(),
{
    if s.len() == 0 {
        Some(Seq::empty())
    } else if is_space_char(s[0]) {
        parse_spec(s.skip(1))
    } else {
        match token_at(s) {
            None => None,
            Some((m, l)) => {
                if s.len() == l {
                    Some(seq![m])
                } else if is_space_char(s[l]) {
                    match parse_spec(s.skip(l + 1)) {
                        None => None,
                        Some(rest) => Some(seq![m] + rest),
                    }
                } else {
                    None
                }
            },
        }
    }
}

pub open spec fn opt_prepend(pre: Seq<Move>, o: Option<Seq<Move>>) -> Option<Seq<Move>> {
    match o {
        None => None,
        Some(r) => Some(pre + r),
    }
}

proof fn lemma_opt_prepend_empty(o: Option<Seq<Move>>)
    ensures
        opt_prepend(Seq::empty(), o) == o,
{
    match o {
        None => {},
        Some(r) => {
            assert(Seq::<Move>::empty() + r =~= r);
        },
    }
}

proof fn lemma_opt_prepend_push(pre: Seq<Move>, m: Move, o: Option<Seq<Move>>)
    ensures
        opt_prepend(pre, opt_prepend(seq![m], o)) == opt_prepend(pre.push(m), o),
{
    match o {
        None => {},
        Some(r) => {
            assert(pre + (seq![m] + r) =~= pre.push(m) + r);
        },
    }
}

fn face_move(c: char) -> (m: Move)
    requires
        is_face_char(c),
    ensures
        m == quarter_of(c),
{
    if c == 'U' {
        Move::U
    } else if c == 'D' {
        Move::D
    } else if c == 'F' {
        Move::F
    } else if c == 'B' {
        Move::B
    } else if c == 'L' {
        Move::L
    } else {
        Move::R
    }
}

fn prime_move(m: Move) -> (r: Move)
    ensures
        r == prime_of(m),
{
    match m {
        Move::U => Move::UPrime,
        Move::D => Move::DPrime,
        Move::F => Move::FPrime,
        Move::B => Move::BPrime,
        Move::L => Move::LPrime,
        Move::R => Move::RPrime,
        _ => m,
    }
}

fn double_move(m: Move) -> (r: Move)
    ensures
        r == double_of(m),
{
    match m {
        Move::U => Move::U2,
        Move::D => Move::D2,
        Move::F => Move::F2,
        Move::B => Move::B2,
        Move::L => Move::L2,
        Move::R => Move::R2,
        _ => m,
    }
}

/// Parses a whitespace-separated move string into generator moves, or
/// reports the first unrecognized token as an invalid-move error.
pub fn parse_moves(s: &str) -> (r: Result<Vec<Move>, SolverError>)
    ensures
        match r {
            Ok(v) => parse_spec(s@) == Some(v@),
            Err(e) => parse_spec(s@) is None && e == SolverError::InvalidMove,
        },
{
    let n = s.unicode_len();
    let mut out: Vec<Move> = Vec::new();
    let mut i: usize = 0;
    proof {
        assert(s@.skip(0) =~= s@);
        lemma_opt_prepend_empty(parse_spec(s@));
    }
    loop
        invariant
            n == s@.len(),
            i <= n,
            parse_spec(s@) == opt_prepend(out@, parse_spec(s@.skip(i as int))),
        decreases n - i,
    {
        if i == n {
            proof {
                assert(s@.skip(i as int) =~= Seq::<char>::empty());
                assert(out@ + Seq::<Move>::empty() =~= out@);
            }
            return Ok(out);
        }
        let ghost rest = s@.skip(i as int);
        proof {
            assert(rest.len() == n - i);
            assert(rest[0] == s@[i as int]);
        }
        let c = s.get_char(i);
        if c == ' ' || c == '\t' || c == '\n' || c == '\r' {
            proof {
                assert(rest.skip(1) =~= s@.skip(i + 1));
            }
            i += 1;
            continue;
        }
        if !(c == 'U' || c == 'D' || c == 'F' || c == 'B' || c == 'L' || c == 'R') {
            proof {
                assert(token_at(rest) is None);
            }
            return Err(SolverError::InvalidMove);
        }
        let q = face_move(c);
        let mut m = q;
        let mut l: usize = 1;
        if i + 1 < n {
            let c2 = s.get_char(i + 1);
            proof {
                assert(rest[1] == s@[i + 1]);
            }
            if c2 == '\'' {
                m = prime_move(q);
                l = 2;
            } else if c2 == '2' {
                m = double_move(q);
                l = 2;
            }
        }
        proof {
            assert(token_at(rest) == Some((m, l as int)));
        }
        if i + l == n {
            proof {
                assert(rest.len() == l as int);
                assert(parse_spec(rest) == Some(seq![m]));
            }
            let ghost out_old = out@;
            out.push(m);
            proof {
                assert(out_old + seq![m] =~= out@);
            }
            return Ok(out);
        }
        proof {
            assert(rest[l as int] == s@[i + l]);
        }
        let csep = s.get_char(i + l);
        if !(csep == ' ' || csep == '\t' || csep == '\n' || csep == '\r') {
            proof {
                assert(parse_spec(rest) is None);
            }
            return Err(SolverError::InvalidMove);
        }
        proof {
            assert(rest.skip(l + 1) =~= s@.skip(i + l + 1));
            assert(parse_spec(rest) == opt_prepend(seq![m], parse_spec(s@.skip(i + l + 1))));
            lemma_opt_prepend_push(out@, m, parse_spec(s@.skip(i + l + 1)));
        }
        out.push(m);
        i = i + l + 1;
    }
}

// ---------------------------------------------------------------------------
// Rendering a move sequence back into a whitespace-separated string.
// ---------------------------------------------------------------------------

pub open spec fn token_view(m: Move) -> Seq<char> {
    match m {
        Move::U => "U"@,
        Move::UPrime => "U'"@,
        Move::U2 => "U2"@,
        Move::F => "F"@,
        Move::FPrime => "F'"@,
        Move::F2 => "F2"@,
        Move::R => "R"@,
        Move::RPrime => "R'"@,
        Move::R2 => "R2"@,
        Move::D => "D"@,
        Move::DPrime => "D'"@,
        Move::D2 => "D2"@,
        Move::B => "B"@,
        Move::BPrime => "B'"@,
        Move::B2 => "B2"@,
        Move::L => "L"@,
        Move::LPrime => "L'"@,
        Move::L2 => "L2"@,
    }
}

/// The whitespace-separated rendering of a move sequence.
pub open spec fn format_spec(mv: Seq<Move>) -> Seq<char>
    decreases mv.len(),
{
    if mv.len() == 0 {
        Seq::empty()
    } else if mv.len() == 1 {
        token_view(mv[0])
    } else {
        token_view(mv[0]) + seq![' '] + format_spec(mv.skip(1))
    }
}

fn token_str(m: Move) -> (r: &'static str)
    ensures
        r@ == token_view(m),
{
    match m {
        Move::U => "U",
        Move::UPrime => "U'",
        Move::U2 => "U2",
        Move::F => "F",
        Move::FPrime => "F'",
        Move::F2 => "F2",
        Move::R => "R",
        Move::RPrime => "R'",
        Move::R2 => "R2",
        Move::D => "D",
        Move::DPrime => "D'",
        Move::D2 => "D2",
        Move::B => "B",
        Move::BPrime => "B'",
        Move::B2 => "B2",
        Move::L => "L",
        Move::LPrime => "L'",
        Move::L2 => "L2",
    }
}

/// Renders a move sequence as a whitespace-separated token string.
pub fn format_moves(mv: &Vec<Move>) -> (r: String)
    ensures
        r@ == format_spec(mv@),
{
    let mut out = String::new();
    let mut i: usize = 0;
    if mv.len() == 0 {
        return out;
    }
    proof {
        assert(mv@.skip(0) =~= mv@);
        assert(out@ + format_spec(mv@) =~= format_spec(mv@));
    }
    let len = mv.len();
    loop
        invariant
            len == mv@.len(),
            i < len,
            format_spec(mv@) == out@ + format_spec(mv@.skip(i as int)),
        decreases mv@.len() - i,
    {
        let ghost rest = mv@.skip(i as int);
        proof {
            assert(rest[0] == mv@[i as int]);
        }
        out.append(token_str(mv[i]));
        if i + 1 == len {
            proof {
                assert(rest.len() == 1);
                assert(format_spec(rest) == token_view(rest[0]));
            }
            return out;
        }
        out.append(" ");
        proof {
            assert(rest.skip(1) =~= mv@.skip(i + 1));
            reveal_strlit(" ");
            assert(" "@ =~= seq![' ']);
            assert(format_spec(rest) == token_view(rest[0]) + seq![' '] + format_spec(rest.skip(1)));
            assert(format_spec(mv@) =~= out@ + format_spec(mv@.skip(i + 1)));
        }
        i += 1;
    }
}

} // verus!
