use vstd::prelude::*;

use crate::SolverError;
use crate::moves::{Move, all_moves, all_moves_spec, parse_moves, parse_spec};
use crate::perm::eq_bytes;
use crate::transformations::{MoveSet, apply_moves_spec, step_spec};

verus! {

/// The sentinel a masked projection writes over the facelets of ignored
/// pieces; it is distinct from every real color.
pub const MASKED: u8 = 255;

/// A puzzle state: one small integer per facelet slot, face by face.  The
/// move set it is driven by is handed to each operation rather than
/// stored, so the same immutable move set serves every state of one
/// puzzle size.
pub struct Cube {
    data: Vec<u8>,
}

impl View for Cube {
    type V = Seq<u8>;

    closed spec fn view(&self) -> Seq<u8> {
        self.data@
    }
}

/// The solved facelet vector of a puzzle `dim` wide: six runs of one
/// color each, `dim * dim` slots long.
pub open spec fn solved_spec(dim: int) -> Seq<u8> {
    Seq::new((6 * dim * dim) as nat, |i: int| (i / (dim * dim)) as u8)
}

/// Facelets of one face all show one color, masked slots skipped.
pub open spec fn face_uniform(s: Seq<u8>, f: int) -> bool {
    let fs = s.len() as int / 6;
    forall|i: int, j: int|
        f * fs <= i < (f + 1) * fs && f * fs <= j < (f + 1) * fs && s[i] != MASKED && s[j]
            != MASKED ==> s[i] == s[j]
}

/// Every face's non-masked facelets share one color.
pub open spec fn is_solved_spec(s: Seq<u8>) -> bool {
    forall|f: int| 0 <= f < 6 ==> face_uniform(s, f)
}

impl Cube {
    /// A state with exactly these facelets.
    pub fn from_data(data: Vec<u8>) -> (r: Cube)
        ensures
            r@ == data@,
    {
        Cube { data }
    }

    /// The facelet vector itself.
    pub fn data(&self) -> (r: &Vec<u8>)
        ensures
            r@ == self@,
    {
        &self.data
    }

    /// The solved state of a puzzle `dim` wide.
    pub fn new(dim: u32) -> (r: Cube)
        requires
            1 <= dim <= 100,
        ensures
            r@ == solved_spec(dim as int),
    {
        proof {
            assert(1 <= (dim as int) * (dim as int) <= 10000) by (nonlinear_arith)
                requires
                    1 <= dim <= 100,
            ;
        }
        let fs: usize = (dim as usize) * (dim as usize);
        let mut data: Vec<u8> = Vec::new();
        let mut color: u8 = 0;
        while color < 6
            invariant
                1 <= fs <= 10000,
                fs == (dim as int) * (dim as int),
                color <= 6,
                data@.len() == color * fs,
                forall|j: int| 0 <= j < data@.len() ==> data@[j] == j / (fs as int),
            decreases 6 - color,
        {
            let mut k: usize = 0;
            while k < fs
                invariant
                    1 <= fs <= 10000,
                    color < 6,
                    k <= fs,
                    data@.len() == color * fs + k,
                    forall|j: int| 0 <= j < data@.len() ==> data@[j] == j / (fs as int),
                decreases fs - k,
            {
                data.push(color);
                proof {
                    let j = data@.len() - 1;
                    vstd::arithmetic::div_mod::lemma_fundamental_div_mod_converse(
                        j,
                        fs as int,
                        color as int,
                        k as int,
                    );
                }
                k += 1;
            }
            proof {
                assert((color as int + 1) * (fs as int) == (color as int) * (fs as int) + (
                fs as int)) by (nonlinear_arith);
            }
            color += 1;
        }
        let r = Cube { data };
        proof {
            assert(6 * (dim as int) * (dim as int) == 6 * ((dim as int) * (dim as int)))
                by (nonlinear_arith);
            assert(r@ =~= solved_spec(dim as int));
        }
        r
    }

    /// Applies one generator move.
    pub fn apply_move(&mut self, ms: &MoveSet, m: Move)
        requires
            ms.wf(),
            old(self)@.len() == ms.facelets(),
        ensures
            final(self)@ == step_spec(*ms, old(self)@, m),
            final(self)@.len() == ms.facelets(),
    {
        let nd = ms.apply_to(m, &self.data);
        self.data = nd;
    }

    /// Applies a move sequence left to right.
    pub fn apply_sequence(&mut self, ms: &MoveSet, mv: &Vec<Move>)
        requires
            ms.wf(),
            old(self)@.len() == ms.facelets(),
        ensures
            final(self)@ == apply_moves_spec(*ms, old(self)@, mv@),
            final(self)@.len() == ms.facelets(),
    {
        let ghost d0 = self@;
        let n = mv.len();
        let mut i: usize = 0;
        proof {
            assert(mv@.take(0) =~= Seq::<Move>::empty());
        }
        while i < n
            invariant
                ms.wf(),
                n == mv@.len(),
                i <= n,
                self@ == apply_moves_spec(*ms, d0, mv@.take(i as int)),
                self@.len() == ms.facelets(),
            decreases n - i,
        {
            let ghost x = apply_moves_spec(*ms, d0, mv@.take(i as int));
            let ghost m = mv@[i as int];
            self.apply_move(ms, mv[i]);
            proof {
                crate::transformations::lemma_apply_moves_concat(*ms, d0, mv@.take(i as int), seq![m]);
                assert(mv@.take(i as int) + seq![m] =~= mv@.take(i + 1));
                assert(seq![m].skip(1) =~= Seq::<Move>::empty());
                assert(apply_moves_spec(*ms, step_spec(*ms, x, m), Seq::<Move>::empty())
                    == step_spec(*ms, x, m));
                assert(apply_moves_spec(*ms, x, seq![m]) == step_spec(*ms, x, m));
            }
            i += 1;
        }
        proof {
            assert(mv@.take(n as int) =~= mv@);
        }
    }

    /// Parses a whitespace-separated move string and applies it left to
    /// right.  An unrecognized token is reported as an invalid-move error
    /// and the state is left untouched.
    pub fn twist(&mut self, ms: &MoveSet, moves: &str) -> (r: Result<(), SolverError>)
        requires
            ms.wf(),
            old(self)@.len() == ms.facelets(),
        ensures
            match r {
                Ok(()) => parse_spec(moves@) is Some && final(self)@ == apply_moves_spec(
                    *ms,
                    old(self)@,
                    parse_spec(moves@)->0,
                ),
                Err(e) => parse_spec(moves@) is None && e == SolverError::InvalidMove
                    && final(self)@ == old(self)@,
            },
            final(self)@.len() == ms.facelets(),
    {
        match parse_moves(moves) {
            Ok(mv) => {
                self.apply_sequence(ms, &mv);
                Ok(())
            },
            Err(e) => Err(e),
        }
    }

    /// True when every face's non-masked facelets share one color, so a
    /// masked projection counts as solved with respect to its own pieces.
    pub fn is_solved(&self) -> (r: bool)
        ensures
            r == is_solved_spec(self@),
    {
        let fs = self.data.len() / 6;
        let mut f: usize = 0;
        while f < 6
            invariant
                fs == self@.len() as int / 6,
                self@.len() <= usize::MAX,
                f <= 6,
                forall|g: int| 0 <= g < f ==> face_uniform(self@, g),
            decreases 6 - f,
        {
            proof {
                vstd::arithmetic::div_mod::lemma_fundamental_div_mod(self@.len() as int, 6);
                assert(0 <= self@.len() as int % 6 < 6);
                assert(6 * (fs as int) <= self@.len() as int);
                assert((f as int + 1) * (fs as int) <= 6 * (fs as int)) by (nonlinear_arith)
                    requires
                        0 <= f < 6,
                        0 <= fs,
                ;
                assert((f as int + 1) * (fs as int) == (f as int) * (fs as int) + (fs as int))
                    by (nonlinear_arith);
            }
            let base = f * fs;
            let mut k: usize = 0;
            let mut color: u8 = MASKED;
            let ghost mut ci: int = 0;
            while k < fs
                invariant
                    fs == self@.len() as int / 6,
                    self@.len() <= usize::MAX,
                    f < 6,
                    base == f * fs,
                    base + fs == (f as int + 1) * (fs as int),
                    base + fs <= self@.len(),
                    k <= fs,
                    color == MASKED ==> forall|i: int|
                        base <= i < base + k ==> self@[i] == MASKED,
                    color != MASKED ==> base <= ci < base + k && self@[ci] == color,
                    color != MASKED ==> forall|i: int|
                        base <= i < base + k && self@[i] != MASKED ==> self@[i] == color,
                decreases fs - k,
            {
                let v = self.data[base + k];
                if v != MASKED {
                    if color == MASKED {
                        color = v;
                        proof {
                            ci = base + k;
                        }
                    } else if v != color {
                        proof {
                            assert(!face_uniform(self@, f as int)) by {
                                assert(self@[ci] == color);
                                assert(self@[base + k] == v);
                            }
                        }
                        return false;
                    }
                }
                k += 1;
            }
            proof {
                assert(face_uniform(self@, f as int));
            }
            f += 1;
        }
        true
    }

    /// All eighteen neighbor states, each paired with the generator move
    /// that reaches it, in the fixed generator order.
    pub fn successors(&self, ms: &MoveSet) -> (r: Vec<(Cube, Move)>)
        requires
            ms.wf(),
            self@.len() == ms.facelets(),
        ensures
            r@.len() == 18,
            forall|k: int|
                0 <= k < 18 ==> (#[trigger] r@[k]).1 == all_moves_spec()[k] && r@[k].0@
                    == step_spec(*ms, self@, all_moves_spec()[k]) && r@[k].0@.len()
                    == ms.facelets(),
    {
        let mvs = all_moves();
        let mut r: Vec<(Cube, Move)> = Vec::new();
        let mut k: usize = 0;
        while k < 18
            invariant
                ms.wf(),
                self@.len() == ms.facelets(),
                mvs@ == all_moves_spec(),
                mvs@.len() == 18,
                k <= 18,
                r@.len() == k,
                forall|j: int|
                    0 <= j < k ==> (#[trigger] r@[j]).1 == all_moves_spec()[j] && r@[j].0@
                        == step_spec(*ms, self@, all_moves_spec()[j]) && r@[j].0@.len()
                        == ms.facelets(),
            decreases 18 - k,
        {
            let m = mvs[k];
            let nd = ms.apply_to(m, &self.data);
            r.push((Cube { data: nd }, m));
            k += 1;
        }
        r
    }
}

// ---------------------------------------------------------------------------
// Masked projections of the 3-wide puzzle.
// ---------------------------------------------------------------------------

/// The slots the corners projection overwrites: every facelet that does
/// not belong to a corner piece.
pub open spec fn corner_masked_slot(i: int) -> bool {
    ||| i == 1 ||| i == 3 ||| i == 4 ||| i == 5 ||| i == 7 ||| i == 10 ||| i == 12 ||| i == 13
    ||| i == 14 ||| i == 16 ||| i == 19 ||| i == 21 ||| i == 22 ||| i == 23 ||| i == 25
    ||| i == 28 ||| i == 30 ||| i == 31 ||| i == 32 ||| i == 34 ||| i == 37 ||| i == 39
    ||| i == 40 ||| i == 41 ||| i == 43 ||| i == 46 ||| i == 48 ||| i == 49 ||| i == 50
    ||| i == 52
}

/// The slots the first edge projection overwrites.
pub open spec fn edges1_masked_slot(i: int) -> bool {
    ||| i == 0 ||| i == 2 ||| i == 4 ||| i == 6 ||| i == 8 ||| i == 9 ||| i == 11 ||| i == 12
    ||| i == 13 ||| i == 15 ||| i == 16 ||| i == 17 ||| i == 18 ||| i == 20 ||| i == 22
    ||| i == 24 ||| i == 25 ||| i == 26 ||| i == 27 ||| i == 29 ||| i == 31 ||| i == 32
    ||| i == 33 ||| i == 34 ||| i == 35 ||| i == 36 ||| i == 38 ||| i == 39 ||| i == 40
    ||| i == 41 ||| i == 42 ||| i == 43 ||| i == 44 ||| i == 45 ||| i == 46 ||| i == 47
    ||| i == 48 ||| i == 49 ||| i == 50 ||| i == 51 ||| i == 52 ||| i == 53
}

fn is_corner_masked_slot(i: usize) -> (b: bool)
    ensures
        b == corner_masked_slot(i as int),
{
    i == 1 || i == 3 || i == 4 || i == 5 || i == 7 || i == 10 || i == 12 || i == 13 || i == 14
        || i == 16 || i == 19 || i == 21 || i == 22 || i == 23 || i == 25 || i == 28 || i == 30
        || i == 31 || i == 32 || i == 34 || i == 37 || i == 39 || i == 40 || i == 41 || i == 43
        || i == 46 || i == 48 || i == 49 || i == 50 || i == 52
}

fn is_edges1_masked_slot(i: usize) -> (b: bool)
    ensures
        b == edges1_masked_slot(i as int),
{
    i == 0 || i == 2 || i == 4 || i == 6 || i == 8 || i == 9 || i == 11 || i == 12 || i == 13
        || i == 15 || i == 16 || i == 17 || i == 18 || i == 20 || i == 22 || i == 24 || i == 25
        || i == 26 || i == 27 || i == 29 || i == 31 || i == 32 || i == 33 || i == 34 || i == 35
        || i == 36 || i == 38 || i == 39 || i == 40 || i == 41 || i == 42 || i == 43 || i == 44
        || i == 45 || i == 46 || i == 47 || i == 48 || i == 49 || i == 50 || i == 51 || i == 52
        || i == 53
}

impl Cube {
    /// The solved 3-wide puzzle with every non-corner facelet masked, so
    /// only the corner pieces drive solvedness and indexing.
    pub fn corners() -> (r: Cube)
        ensures
            r@.len() == 54,
            forall|i: int|
                0 <= i < 54 ==> r@[i] == (if corner_masked_slot(i) {
                    MASKED
                } else {
                    solved_spec(3)[i]
                }),
    {
        let mut c = Cube::new(3);
        let mut i: usize = 0;
        while i < 54
            invariant
                c@.len() == 54,
                i <= 54,
                forall|j: int|
                    0 <= j < i ==> c@[j] == (if corner_masked_slot(j) {
                        MASKED
                    } else {
                        solved_spec(3)[j]
                    }),
                forall|j: int| i <= j < 54 ==> c@[j] == solved_spec(3)[j],
            decreases 54 - i,
        {
            if is_corner_masked_slot(i) {
                c.data[i] = MASKED;
            }
            i += 1;
        }
        c
    }

    /// The solved 3-wide puzzle with every facelet outside the first edge
    /// subset masked.
    pub fn edges1() -> (r: Cube)
        ensures
            r@.len() == 54,
            forall|i: int|
                0 <= i < 54 ==> r@[i] == (if edges1_masked_slot(i) {
                    MASKED
                } else {
                    solved_spec(3)[i]
                }),
    {
        let mut c = Cube::new(3);
        let mut i: usize = 0;
        while i < 54
            invariant
                c@.len() == 54,
                i <= 54,
                forall|j: int|
                    0 <= j < i ==> c@[j] == (if edges1_masked_slot(j) {
                        MASKED
                    } else {
                        solved_spec(3)[j]
                    }),
                forall|j: int| i <= j < 54 ==> c@[j] == solved_spec(3)[j],
            decreases 54 - i,
        {
            if is_edges1_masked_slot(i) {
                c.data[i] = MASKED;
            }
            i += 1;
        }
        c
    }
}

// ---------------------------------------------------------------------------
// Piece classification: which corner or edge a facelet tuple belongs to,
// and how that piece is oriented.
// ---------------------------------------------------------------------------

/// A corner piece, named by its three colors.
#[derive(Clone, Copy, Debug, PartialEq, Eq, Structural)]
pub enum Corner {
    BlueOrangeWhite,
    BlueOrangeYellow,
    BlueRedWhite,
    BlueRedYellow,
    GreenOrangeWhite,
    GreenOrangeYellow,
    GreenRedWhite,
    GreenRedYellow,
}

/// Which slice holds a corner's reference facelet: the up/down layer, the
/// right/left layer, or the front/back layer.
#[derive(Clone, Copy, Debug, PartialEq, Eq, Structural)]
pub enum CornerOrientation {
    Up,
    Right,
    Front,
}

/// An edge piece, named by its two colors, or the ignored label a masked
/// subset maps its outside edges to.
#[derive(Clone, Copy, Debug, PartialEq, Eq, Hash, Structural)]
pub enum Edge {
    BlueOrange,
    BlueWhite,
    BlueYellow,
    BlueRed,
    OrangeWhite,
    OrangeYellow,
    RedWhite,
    RedYellow,
    GreenOrange,
    GreenWhite,
    GreenYellow,
    GreenRed,
    Ignored,
}

/// Whether an edge's reference facelet shows the good polarity.
#[derive(Clone, Copy, Debug, PartialEq, Eq, Structural)]
pub enum EdgeOrientation {
    Good,
    Bad,
}

/// The corner a sorted color triple names, if any.
pub open spec fn corner_of(a: u8, b: u8, c: u8) -> Option<Corner> {
    if a == 0 && b == 1 && c == 4 {
        Some(Corner::BlueOrangeWhite)
    } else if a == 0 && b == 1 && c == 2 {
        Some(Corner::BlueRedWhite)
    } else if a == 0 && b == 2 && c == 3 {
        Some(Corner::BlueRedYellow)
    } else if a == 0 && b == 3 && c == 4 {
        Some(Corner::BlueOrangeYellow)
    } else if a == 1 && b == 4 && c == 5 {
        Some(Corner::GreenOrangeWhite)
    } else if a == 1 && b == 2 && c == 5 {
        Some(Corner::GreenRedWhite)
    } else if a == 2 && b == 3 && c == 5 {
        Some(Corner::GreenRedYellow)
    } else if a == 3 && b == 4 && c == 5 {
        Some(Corner::GreenOrangeYellow)
    } else {
        None
    }
}

pub open spec fn corner_index_spec(c: Corner) -> int {
    match c {
        Corner::BlueOrangeWhite => 0,
        Corner::BlueOrangeYellow => 1,
        Corner::BlueRedWhite => 2,
        Corner::BlueRedYellow => 3,
        Corner::GreenOrangeWhite => 4,
        Corner::GreenOrangeYellow => 5,
        Corner::GreenRedWhite => 6,
        Corner::GreenRedYellow => 7,
    }
}

impl Corner {
    /// The corner an unordered (pre-sorted) color triple names, or
    /// nothing when the triple fits no corner piece.
    pub fn from(v: [u8; 3]) -> (r: Option<Corner>)
        ensures
            r == corner_of(v@[0], v@[1], v@[2]),
    {
        let a = v[0];
        let b = v[1];
        let c = v[2];
        if a == 0 && b == 1 && c == 4 {
            Some(Corner::BlueOrangeWhite)
        } else if a == 0 && b == 1 && c == 2 {
            Some(Corner::BlueRedWhite)
        } else if a == 0 && b == 2 && c == 3 {
            Some(Corner::BlueRedYellow)
        } else if a == 0 && b == 3 && c == 4 {
            Some(Corner::BlueOrangeYellow)
        } else if a == 1 && b == 4 && c == 5 {
            Some(Corner::GreenOrangeWhite)
        } else if a == 1 && b == 2 && c == 5 {
            Some(Corner::GreenRedWhite)
        } else if a == 2 && b == 3 && c == 5 {
            Some(Corner::GreenRedYellow)
        } else if a == 3 && b == 4 && c == 5 {
            Some(Corner::GreenOrangeYellow)
        } else {
            None
        }
    }

    /// This corner's position in the canonical label order.
    pub fn index(&self) -> (r: usize)
        ensures
            r == corner_index_spec(*self),
            r < 8,
    {
        match self {
            Corner::BlueOrangeWhite => 0,
            Corner::BlueOrangeYellow => 1,
            Corner::BlueRedWhite => 2,
            Corner::BlueRedYellow => 3,
            Corner::GreenOrangeWhite => 4,
            Corner::GreenOrangeYellow => 5,
            Corner::GreenRedWhite => 6,
            Corner::GreenRedYellow => 7,
        }
    }
}

/// The orientation an unsorted corner triple shows: which of its three
/// facelets carries the up/down reference color.
pub open spec fn corner_orient_of(a: u8, b: u8, c: u8) -> Option<CornerOrientation> {
    if a == 0 || a == 5 {
        Some(CornerOrientation::Up)
    } else if b == 0 || b == 5 {
        Some(CornerOrientation::Right)
    } else if c == 0 || c == 5 {
        Some(CornerOrientation::Front)
    } else {
        None
    }
}

pub open spec fn corner_orient_index_spec(o: CornerOrientation) -> int {
    match o {
        CornerOrientation::Up => 0,
        CornerOrientation::Right => 1,
        CornerOrientation::Front => 2,
    }
}

impl CornerOrientation {
    /// The orientation an unsorted corner triple shows, or nothing when
    /// no facelet carries the reference color.
    pub fn from(v: [u8; 3]) -> (r: Option<CornerOrientation>)
        ensures
            r == corner_orient_of(v@[0], v@[1], v@[2]),
    {
        let a = v[0];
        let b = v[1];
        let c = v[2];
        if a == 0 || a == 5 {
            Some(CornerOrientation::Up)
        } else if b == 0 || b == 5 {
            Some(CornerOrientation::Right)
        } else if c == 0 || c == 5 {
            Some(CornerOrientation::Front)
        } else {
            None
        }
    }

    /// This orientation's digit in the base-3 encoding.
    pub fn index(&self) -> (r: usize)
        ensures
            r == corner_orient_index_spec(*self),
            r < 3,
    {
        match self {
            CornerOrientation::Up => 0,
            CornerOrientation::Right => 1,
            CornerOrientation::Front => 2,
        }
    }
}

/// The edge a sorted color pair names, if any; masking is applied on top
/// of this raw classification.
pub open spec fn edge_of(a: u8, b: u8) -> Option<Edge> {
    if a == 0 && b == 4 {
        Some(Edge::BlueOrange)
    } else if a == 0 && b == 1 {
        Some(Edge::BlueWhite)
    } else if a == 0 && b == 3 {
        Some(Edge::BlueYellow)
    } else if a == 0 && b == 2 {
        Some(Edge::BlueRed)
    } else if a == 1 && b == 4 {
        Some(Edge::OrangeWhite)
    } else if a == 3 && b == 4 {
        Some(Edge::OrangeYellow)
    } else if a == 1 && b == 2 {
        Some(Edge::RedWhite)
    } else if a == 2 && b == 3 {
        Some(Edge::RedYellow)
    } else if a == 4 && b == 5 {
        Some(Edge::GreenOrange)
    } else if a == 1 && b == 5 {
        Some(Edge::GreenWhite)
    } else if a == 3 && b == 5 {
        Some(Edge::GreenYellow)
    } else if a == 2 && b == 5 {
        Some(Edge::GreenRed)
    } else {
        None
    }
}

pub open spec fn edge_index_spec(e: Edge) -> int {
    match e {
        Edge::BlueOrange => 0,
        Edge::BlueWhite => 1,
        Edge::BlueYellow => 2,
        Edge::BlueRed => 3,
        Edge::OrangeWhite => 4,
        Edge::OrangeYellow => 5,
        Edge::RedWhite => 6,
        Edge::RedYellow => 7,
        Edge::GreenOrange => 8,
        Edge::GreenWhite => 9,
        Edge::GreenYellow => 10,
        Edge::GreenRed => 11,
        Edge::Ignored => 12,
    }
}

/// What a sorted color pair classifies to under a mask: the raw edge, the
/// ignored label when the mask holds it, or nothing for an unknown pair.
pub open spec fn masked_edge_of(a: u8, b: u8, mask: Seq<Edge>) -> Option<Edge> {
    match edge_of(a, b) {
        None => None,
        Some(e) => Some(
            if mask.contains(e) {
                Edge::Ignored
            } else {
                e
            },
        ),
    }
}

fn mask_contains(mask: &Vec<Edge>, e: Edge) -> (r: bool)
    ensures
        r == mask@.contains(e),
{
    let n = mask.len();
    let mut i: usize = 0;
    while i < n
        invariant
            n == mask@.len(),
            i <= n,
            forall|j: int| 0 <= j < i ==> mask@[j] != e,
        decreases n - i,
    {
        if mask[i] == e {
            return true;
        }
        i += 1;
    }
    false
}

impl Edge {
    /// The edge a sorted color pair names under a mask: edges the mask
    /// holds collapse to the ignored label, and a pair that fits no edge
    /// is nothing.
    pub fn from(v: [u8; 2], mask: &Vec<Edge>) -> (r: Option<Edge>)
        ensures
            r == masked_edge_of(v@[0], v@[1], mask@),
    {
        let a = v[0];
        let b = v[1];
        let raw = if a == 0 && b == 4 {
            Some(Edge::BlueOrange)
        } else if a == 0 && b == 1 {
            Some(Edge::BlueWhite)
        } else if a == 0 && b == 3 {
            Some(Edge::BlueYellow)
        } else if a == 0 && b == 2 {
            Some(Edge::BlueRed)
        } else if a == 1 && b == 4 {
            Some(Edge::OrangeWhite)
        } else if a == 3 && b == 4 {
            Some(Edge::OrangeYellow)
        } else if a == 1 && b == 2 {
            Some(Edge::RedWhite)
        } else if a == 2 && b == 3 {
            Some(Edge::RedYellow)
        } else if a == 4 && b == 5 {
            Some(Edge::GreenOrange)
        } else if a == 1 && b == 5 {
            Some(Edge::GreenWhite)
        } else if a == 3 && b == 5 {
            Some(Edge::GreenYellow)
        } else if a == 2 && b == 5 {
            Some(Edge::GreenRed)
        } else {
            None
        };
        match raw {
            None => None,
            Some(e) => {
                if mask_contains(mask, e) {
                    Some(Edge::Ignored)
                } else {
                    Some(e)
                }
            },
        }
    }

    /// This edge's position in the canonical label order; the ignored
    /// label comes last.
    pub fn index(&self) -> (r: usize)
        ensures
            r == edge_index_spec(*self),
            r < 13,
    {
        match self {
            Edge::BlueOrange => 0,
            Edge::BlueWhite => 1,
            Edge::BlueYellow => 2,
            Edge::BlueRed => 3,
            Edge::OrangeWhite => 4,
            Edge::OrangeYellow => 5,
            Edge::RedWhite => 6,
            Edge::RedYellow => 7,
            Edge::GreenOrange => 8,
            Edge::GreenWhite => 9,
            Edge::GreenYellow => 10,
            Edge::GreenRed => 11,
            Edge::Ignored => 12,
        }
    }
}

/// The polarity an unsorted edge pair shows, or nothing for a pair no
/// edge piece can show.
pub open spec fn edge_orient_of(a: u8, b: u8) -> Option<EdgeOrientation> {
    if (a == 0 && (b == 4 || b == 1 || b == 3 || b == 2)) || (a == 4 && (b == 1 || b == 3)) || (a
        == 2 && (b == 1 || b == 3)) || (a == 5 && (b == 4 || b == 1 || b == 3 || b == 2)) {
        Some(EdgeOrientation::Good)
    } else if ((b == 0 || b == 5) && (a == 4 || a == 1 || a == 3 || a == 2)) || ((a == 1 || a == 3)
        && (b == 4 || b == 2)) {
        Some(EdgeOrientation::Bad)
    } else {
        None
    }
}

pub open spec fn edge_orient_index_spec(o: EdgeOrientation) -> int {
    match o {
        EdgeOrientation::Good => 0,
        EdgeOrientation::Bad => 1,
    }
}

impl EdgeOrientation {
    /// The polarity an unsorted edge pair shows, or nothing when the pair
    /// fits no edge piece.
    pub fn from(v: [u8; 2]) -> (r: Option<EdgeOrientation>)
        ensures
            r == edge_orient_of(v@[0], v@[1]),
    {
        let a = v[0];
        let b = v[1];
        if (a == 0 && (b == 4 || b == 1 || b == 3 || b == 2)) || (a == 4 && (b == 1 || b == 3))
            || (a == 2 && (b == 1 || b == 3)) || (a == 5 && (b == 4 || b == 1 || b == 3 || b
            == 2)) {
            Some(EdgeOrientation::Good)
        } else if ((b == 0 || b == 5) && (a == 4 || a == 1 || a == 3 || a == 2)) || ((a == 1 || a
            == 3) && (b == 4 || b == 2)) {
            Some(EdgeOrientation::Bad)
        } else {
            None
        }
    }

    /// This polarity's digit in the base-2 encoding.
    pub fn index(&self) -> (r: usize)
        ensures
            r == edge_orient_index_spec(*self),
            r < 2,
    {
        match self {
            EdgeOrientation::Good => 0,
            EdgeOrientation::Bad => 1,
        }
    }
}

/// The edges whose facelets the first edge subset ignores.
pub open spec fn edges1_mask_spec() -> Seq<Edge> {
    seq![
        Edge::RedWhite,
        Edge::RedYellow,
        Edge::GreenOrange,
        Edge::GreenWhite,
        Edge::GreenYellow,
        Edge::GreenRed,
    ]
}

/// The edges whose facelets the second edge subset ignores.
pub open spec fn edges2_mask_spec() -> Seq<Edge> {
    seq![
        Edge::BlueOrange,
        Edge::BlueWhite,
        Edge::BlueYellow,
        Edge::BlueRed,
        Edge::OrangeWhite,
        Edge::OrangeYellow,
    ]
}

/// The mask of the first edge subset.
pub fn edges1_mask() -> (r: Vec<Edge>)
    ensures
        r@ == edges1_mask_spec(),
{
    let r: Vec<Edge> = vec![
        Edge::RedWhite,
        Edge::RedYellow,
        Edge::GreenOrange,
        Edge::GreenWhite,
        Edge::GreenYellow,
        Edge::GreenRed,
    ];
    proof {
        assert(r@ =~= edges1_mask_spec());
    }
    r
}

/// The mask of the second edge subset.
pub fn edges2_mask() -> (r: Vec<Edge>)
    ensures
        r@ == edges2_mask_spec(),
{
    let r: Vec<Edge> = vec![
        Edge::BlueOrange,
        Edge::BlueWhite,
        Edge::BlueYellow,
        Edge::BlueRed,
        Edge::OrangeWhite,
        Edge::OrangeYellow,
    ];
    proof {
        assert(r@ =~= edges2_mask_spec());
    }
    r
}

// ---------------------------------------------------------------------------
// Reading the pieces off a 3-wide facelet vector.
// ---------------------------------------------------------------------------

/// The facelet-slot triple of each corner position, in canonical order.
pub open spec fn corner_slots() -> Seq<(usize, usize, usize)> {
    seq![
        (0usize, 9usize, 38usize),
        (2usize, 29usize, 36usize),
        (6usize, 11usize, 18usize),
        (8usize, 27usize, 20usize),
        (51usize, 15usize, 44usize),
        (53usize, 35usize, 42usize),
        (45usize, 17usize, 24usize),
        (47usize, 33usize, 26usize),
    ]
}

/// The facelet-slot pair of each edge position, in canonical order.
pub open spec fn edge_slots() -> Seq<(usize, usize)> {
    seq![
        (1usize, 37usize),
        (3usize, 10usize),
        (5usize, 28usize),
        (7usize, 19usize),
        (41usize, 12usize),
        (39usize, 32usize),
        (21usize, 14usize),
        (23usize, 30usize),
        (52usize, 43usize),
        (48usize, 16usize),
        (50usize, 34usize),
        (46usize, 25usize),
    ]
}

fn corner_slot(k: usize) -> (r: (usize, usize, usize))
    requires
        k < 8,
    ensures
        r == corner_slots()[k as int],
{
    if k == 0 {
        (0, 9, 38)
    } else if k == 1 {
        (2, 29, 36)
    } else if k == 2 {
        (6, 11, 18)
    } else if k == 3 {
        (8, 27, 20)
    } else if k == 4 {
        (51, 15, 44)
    } else if k == 5 {
        (53, 35, 42)
    } else if k == 6 {
        (45, 17, 24)
    } else {
        (47, 33, 26)
    }
}

fn edge_slot(k: usize) -> (r: (usize, usize))
    requires
        k < 12,
    ensures
        r == edge_slots()[k as int],
{
    if k == 0 {
        (1, 37)
    } else if k == 1 {
        (3, 10)
    } else if k == 2 {
        (5, 28)
    } else if k == 3 {
        (7, 19)
    } else if k == 4 {
        (41, 12)
    } else if k == 5 {
        (39, 32)
    } else if k == 6 {
        (21, 14)
    } else if k == 7 {
        (23, 30)
    } else if k == 8 {
        (52, 43)
    } else if k == 9 {
        (48, 16)
    } else if k == 10 {
        (50, 34)
    } else {
        (46, 25)
    }
}

/// Three values in ascending order.
pub open spec fn sort3_spec(a: u8, b: u8, c: u8) -> (u8, u8, u8) {
    if a <= b {
        if b <= c {
            (a, b, c)
        } else if a <= c {
            (a, c, b)
        } else {
            (c, a, b)
        }
    } else {
        if a <= c {
            (b, a, c)
        } else if b <= c {
            (b, c, a)
        } else {
            (c, b, a)
        }
    }
}

/// Two values in ascending order.
pub open spec fn sort2_spec(a: u8, b: u8) -> (u8, u8) {
    if a <= b {
        (a, b)
    } else {
        (b, a)
    }
}

fn sort3(a: u8, b: u8, c: u8) -> (r: (u8, u8, u8))
    ensures
        r == sort3_spec(a, b, c),
{
    if a <= b {
        if b <= c {
            (a, b, c)
        } else if a <= c {
            (a, c, b)
        } else {
            (c, a, b)
        }
    } else {
        if a <= c {
            (b, a, c)
        } else if b <= c {
            (b, c, a)
        } else {
            (c, b, a)
        }
    }
}

/// The corner label the piece at position `k` shows: its facelet triple
/// is read, sorted to a canonical identity and classified.
pub open spec fn corner_label_at(s: Seq<u8>, k: int) -> Option<Corner> {
    let t = corner_slots()[k];
    let srt = sort3_spec(s[t.0 as int], s[t.1 as int], s[t.2 as int]);
    corner_of(srt.0, srt.1, srt.2)
}

/// The orientation the corner piece at position `k` shows, read off the
/// unsorted facelet triple.
pub open spec fn corner_orient_at(s: Seq<u8>, k: int) -> Option<CornerOrientation> {
    let t = corner_slots()[k];
    corner_orient_of(s[t.0 as int], s[t.1 as int], s[t.2 as int])
}

/// The masked edge label the piece at position `k` shows.
pub open spec fn edge_label_at(s: Seq<u8>, k: int, mask: Seq<Edge>) -> Option<Edge> {
    let t = edge_slots()[k];
    let srt = sort2_spec(s[t.0 as int], s[t.1 as int]);
    masked_edge_of(srt.0, srt.1, mask)
}

/// The orientation the edge piece at position `k` shows, read off the
/// unsorted facelet pair.
pub open spec fn edge_orient_at(s: Seq<u8>, k: int) -> Option<EdgeOrientation> {
    let t = edge_slots()[k];
    edge_orient_of(s[t.0 as int], s[t.1 as int])
}

/// Every corner position classifies to a label and an orientation.
pub open spec fn corners_classify(s: Seq<u8>) -> bool {
    forall|k: int|
        0 <= k < 8 ==> (#[trigger] corner_label_at(s, k)) is Some && corner_orient_at(s, k)
            is Some
}

/// Every edge position classifies to a label and an orientation.
pub open spec fn edges_classify(s: Seq<u8>, mask: Seq<Edge>) -> bool {
    forall|k: int|
        0 <= k < 12 ==> (#[trigger] edge_label_at(s, k, mask)) is Some && edge_orient_at(s, k)
            is Some
}

impl Cube {
    /// Reads the eight corner pieces off a 3-wide state: for each corner
    /// position its label (sorted identity) and its orientation (unsorted
    /// arrangement).  A facelet triple that fits no corner is a
    /// data-integrity error.
    pub fn corners_data(&self) -> (r: Result<(Vec<Corner>, Vec<CornerOrientation>), SolverError>)
        requires
            self@.len() == 54,
        ensures
            match r {
                Ok(po) => corners_classify(self@) && po.0@.len() == 8 && po.1@.len() == 8
                    && (forall|k: int|
                    0 <= k < 8 ==> Some(#[trigger] po.0@[k]) == corner_label_at(self@, k))
                    && (forall|k: int|
                    0 <= k < 8 ==> Some(#[trigger] po.1@[k]) == corner_orient_at(self@, k)),
                Err(e) => e == SolverError::DataIntegrity && !corners_classify(self@),
            },
    {
        let mut perm: Vec<Corner> = Vec::new();
        let mut orient: Vec<CornerOrientation> = Vec::new();
        let mut k: usize = 0;
        while k < 8
            invariant
                self@.len() == 54,
                k <= 8,
                perm@.len() == k,
                orient@.len() == k,
                forall|j: int|
                    0 <= j < k ==> Some(#[trigger] perm@[j]) == corner_label_at(self@, j),
                forall|j: int|
                    0 <= j < k ==> Some(#[trigger] orient@[j]) == corner_orient_at(self@, j),
            decreases 8 - k,
        {
            let (s0, s1, s2) = corner_slot(k);
            let x = self.data[s0];
            let y = self.data[s1];
            let z = self.data[s2];
            let o = match CornerOrientation::from([x, y, z]) {
                Some(o) => o,
                None => {
                    proof {
                        assert(corner_orient_at(self@, k as int) is None);
                        assert(!(corner_label_at(self@, k as int) is Some && corner_orient_at(
                            self@,
                            k as int,
                        ) is Some));
                    }
                    return Err(SolverError::DataIntegrity);
                },
            };
            let (a, b, c) = sort3(x, y, z);
            let p = match Corner::from([a, b, c]) {
                Some(p) => p,
                None => {
                    proof {
                        assert(corner_label_at(self@, k as int) is None);
                    }
                    return Err(SolverError::DataIntegrity);
                },
            };
            perm.push(p);
            orient.push(o);
            k += 1;
        }
        proof {
            assert forall|j: int|
                0 <= j < 8 implies (#[trigger] corner_label_at(self@, j)) is Some
                && corner_orient_at(self@, j) is Some by {
                assert(Some(perm@[j]) == corner_label_at(self@, j));
                assert(Some(orient@[j]) == corner_orient_at(self@, j));
            }
        }
        Ok((perm, orient))
    }

    /// Reads the twelve edge pieces off a 3-wide state under a mask: for
    /// each edge position its masked label and its orientation.  A
    /// facelet pair that fits no edge is a data-integrity error.
    pub fn edges_data(&self, mask: &Vec<Edge>) -> (r: Result<
        (Vec<Edge>, Vec<EdgeOrientation>),
        SolverError,
    >)
        requires
            self@.len() == 54,
        ensures
            match r {
                Ok(po) => edges_classify(self@, mask@) && po.0@.len() == 12 && po.1@.len() == 12
                    && (forall|k: int|
                    0 <= k < 12 ==> Some(#[trigger] po.0@[k]) == edge_label_at(self@, k, mask@))
                    && (forall|k: int|
                    0 <= k < 12 ==> Some(#[trigger] po.1@[k]) == edge_orient_at(self@, k)),
                Err(e) => e == SolverError::DataIntegrity && !edges_classify(self@, mask@),
            },
    {
        let mut perm: Vec<Edge> = Vec::new();
        let mut orient: Vec<EdgeOrientation> = Vec::new();
        let mut k: usize = 0;
        while k < 12
            invariant
                self@.len() == 54,
                k <= 12,
                perm@.len() == k,
                orient@.len() == k,
                forall|j: int|
                    0 <= j < k ==> Some(#[trigger] perm@[j]) == edge_label_at(self@, j, mask@),
                forall|j: int|
                    0 <= j < k ==> Some(#[trigger] orient@[j]) == edge_orient_at(self@, j),
            decreases 12 - k,
        {
            let (s0, s1) = edge_slot(k);
            let x = self.data[s0];
            let y = self.data[s1];
            let o = match EdgeOrientation::from([x, y]) {
                Some(o) => o,
                None => {
                    proof {
                        assert(edge_orient_at(self@, k as int) is None);
                        assert(!(edge_label_at(self@, k as int, mask@) is Some && edge_orient_at(
                            self@,
                            k as int,
                        ) is Some));
                    }
                    return Err(SolverError::DataIntegrity);
                },
            };
            let (a, b) = if x <= y {
                (x, y)
            } else {
                (y, x)
            };
            let p = match Edge::from([a, b], mask) {
                Some(p) => p,
                None => {
                    proof {
                        assert(edge_label_at(self@, k as int, mask@) is None);
                    }
                    return Err(SolverError::DataIntegrity);
                },
            };
            perm.push(p);
            orient.push(o);
            k += 1;
        }
        proof {
            assert forall|j: int|
                0 <= j < 12 implies (#[trigger] edge_label_at(self@, j, mask@)) is Some
                && edge_orient_at(self@, j) is Some by {
                assert(Some(perm@[j]) == edge_label_at(self@, j, mask@));
                assert(Some(orient@[j]) == edge_orient_at(self@, j));
            }
        }
        Ok((perm, orient))
    }
}

impl PartialEq for Cube {
    /// Two states are equal exactly when their facelet vectors are equal.
    fn eq(&self, other: &Cube) -> (r: bool) {
        eq_bytes(&self.data, &other.data)
    }
}

impl vstd::std_specs::cmp::PartialEqSpecImpl for Cube {
    open spec fn obeys_eq_spec() -> bool {
        true
    }

    open spec fn eq_spec(&self, other: &Cube) -> bool {
        self@ == other@
    }
}

} // verus!
