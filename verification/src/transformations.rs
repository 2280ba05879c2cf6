use vstd::prelude::*;

use crate::SolverError;
use crate::moves::{
    Move, all_moves_spec, double_of, inverse_spec, is_half_turn, move_index_spec, prime_of,
};
use crate::perm::{
    apply_perm, apply_spec, compose_spec, is_inverse_of, is_perm, lemma_apply_four,
    lemma_apply_inverse, lemma_apply_two,
};

verus! {

/// The move set of one puzzle size: for every generator move, the index
/// array that applying the move performs on a facelet vector.  Only the
/// rotations of the up face and two whole-puzzle axis rotations are
/// authored by hand; every other face is derived from them by conjugation,
/// and the whole set is checked for its group relations before it is
/// handed out, so a well-formed move set is the only kind a caller can hold.
pub struct MoveSet {
    n: usize,
    perms: Vec<Vec<u8>>,
}

/// An authored quarter turn is self-consistent: it stays in range and
/// four applications return every slot home.  Injectivity follows, so
/// such an array is a permutation without a separate check.
pub open spec fn quarter_valid(q: Seq<u8>, n: nat) -> bool {
    &&& q.len() == n
    &&& forall|i: int| 0 <= i < n ==> (#[trigger] q[i]) < n
    &&& forall|i: int| 0 <= i < n ==> q[q[q[(#[trigger] q[i]) as int] as int] as int] == i
}

/// The quarter, prime and half arrays one authored turn yields: the
/// prime is the third power, the half turn the second.
pub open spec fn face_triple(q: Seq<u8>) -> (Seq<u8>, Seq<u8>, Seq<u8>) {
    let q2 = compose_spec(q, q);
    let qp = compose_spec(q2, q);
    (q, qp, q2)
}

/// The views of a vector of index arrays.
pub open spec fn array_views(ps: Seq<Vec<u8>>) -> Seq<Seq<u8>> {
    ps.map(|i: int, v: Vec<u8>| v@)
}

/// What the constructor checks of eighteen arrays before wrapping them:
/// exactly the relations `wf` then promises of the wrapped set.
pub open spec fn moveset_arrays_valid(ps: Seq<Seq<u8>>, n: nat) -> bool {
    &&& ps.len() == 18
    &&& forall|j: int| 0 <= j < 18 ==> is_perm(#[trigger] ps[j], n)
    &&& forall|f: int|
        0 <= f < 6 ==> is_triple_pow(#[trigger] ps[3 * f], ps[3 * f + 1], n) && is_double_pow(
            ps[3 * f],
            ps[3 * f + 2],
            n,
        ) && is_inverse_of(ps[3 * f], ps[3 * f + 1], n)
}

/// The array of a prime move is the third power of its face's quarter turn.
pub open spec fn is_triple_pow(q: Seq<u8>, p3: Seq<u8>, n: nat) -> bool {
    forall|i: int| 0 <= i < n ==> p3[i] == q[q[(#[trigger] q[i]) as int] as int]
}

/// The array of a half turn is the second power of its face's quarter turn.
pub open spec fn is_double_pow(q: Seq<u8>, p2: Seq<u8>, n: nat) -> bool {
    forall|i: int| 0 <= i < n ==> (#[trigger] p2[i]) == q[q[i] as int]
}

impl MoveSet {
    /// How many facelet slots a vector moved by this set has.
    pub closed spec fn facelets(self) -> nat {
        self.n as nat
    }

    /// The index array of one generator move.
    pub closed spec fn perm_of(self, m: Move) -> Seq<u8> {
        self.perms@[move_index_spec(m)]@
    }

    /// The group relations every move set handed out satisfies: each move
    /// is a permutation, each prime is the cube of its quarter turn and
    /// undoes it, and each half turn is the square of its quarter turn.
    pub closed spec fn wf(self) -> bool {
        &&& self.perms@.len() == 18
        &&& forall|m: Move| is_perm(#[trigger] self.perm_of(m), self.facelets())
        &&& forall|m: Move|
            move_index_spec(m) % 3 == 0 ==> {
                &&& is_triple_pow(
                    #[trigger] self.perm_of(m),
                    self.perm_of(prime_of(m)),
                    self.facelets(),
                )
                &&& is_double_pow(self.perm_of(m), self.perm_of(double_of(m)), self.facelets())
                &&& is_inverse_of(self.perm_of(m), self.perm_of(prime_of(m)), self.facelets())
            }
    }

    /// How many facelet slots a vector moved by this set has.
    pub fn num_facelets(&self) -> (r: usize)
        ensures
            r == self.facelets(),
    {
        self.n
    }

    /// Applies one generator move to a facelet vector.
    pub fn apply_to(&self, m: Move, d: &Vec<u8>) -> (r: Vec<u8>)
        requires
            self.wf(),
            d@.len() == self.facelets(),
        ensures
            r@ == apply_spec(self.perm_of(m), d@),
            r@.len() == self.facelets(),
    {
        let i = m.index();
        proof {
            assert(is_perm(self.perm_of(m), self.facelets()));
        }
        apply_perm(&self.perms[i], d)
    }

    /// Builds a move set from eighteen index arrays in generator order,
    /// after checking every group relation that `wf` promises: it succeeds
    /// exactly when the arrays pass those checks, and the wrapped set then
    /// holds exactly the arrays handed in.
    pub fn new(n: usize, perms: Vec<Vec<u8>>) -> (r: Result<MoveSet, SolverError>)
        ensures
            r is Ok <==> moveset_arrays_valid(array_views(perms@), n as nat),
            match r {
                Ok(ms) => ms.wf() && ms.facelets() == n && forall|m: Move|
                    #[trigger] ms.perm_of(m) == perms@[move_index_spec(m)]@,
                Err(e) => e == SolverError::Configuration,
            },
    {
        if perms.len() != 18 {
            return Err(SolverError::Configuration);
        }
        let mut k: usize = 0;
        while k < 18
            invariant
                perms@.len() == 18,
                k <= 18,
                forall|j: int| 0 <= j < k ==> is_perm((#[trigger] perms@[j])@, n as nat),
            decreases 18 - k,
        {
            if !check_perm(&perms[k], n) {
                proof {
                    assert(array_views(perms@)[k as int] == perms@[k as int]@);
                }
                return Err(SolverError::Configuration);
            }
            k += 1;
        }
        let mut f: usize = 0;
        while f < 6
            invariant
                perms@.len() == 18,
                f <= 6,
                forall|j: int| 0 <= j < 18 ==> is_perm((#[trigger] perms@[j])@, n as nat),
                forall|j: int|
                    0 <= j < f ==> {
                        &&& is_triple_pow((#[trigger] perms@[3 * j])@, perms@[3 * j + 1]@, n as nat)
                        &&& is_double_pow(perms@[3 * j]@, perms@[3 * j + 2]@, n as nat)
                        &&& is_inverse_of(perms@[3 * j]@, perms@[3 * j + 1]@, n as nat)
                    },
            decreases 6 - f,
        {
            let q = &perms[3 * f];
            let pr = &perms[3 * f + 1];
            let db = &perms[3 * f + 2];
            if !check_face_relations(q, pr, db, n) {
                proof {
                    assert(array_views(perms@)[3 * f] == perms@[3 * f]@);
                    assert(array_views(perms@)[3 * f + 1] == perms@[3 * f + 1]@);
                    assert(array_views(perms@)[3 * f + 2] == perms@[3 * f + 2]@);
                }
                return Err(SolverError::Configuration);
            }
            f += 1;
        }
        proof {
            assert forall|j: int| 0 <= j < 18 implies is_perm(
                #[trigger] array_views(perms@)[j],
                n as nat,
            ) by {
                assert(array_views(perms@)[j] == perms@[j]@);
            }
            assert forall|f2: int| 0 <= f2 < 6 implies is_triple_pow(
                #[trigger] array_views(perms@)[3 * f2],
                array_views(perms@)[3 * f2 + 1],
                n as nat,
            ) && is_double_pow(
                array_views(perms@)[3 * f2],
                array_views(perms@)[3 * f2 + 2],
                n as nat,
            ) && is_inverse_of(
                array_views(perms@)[3 * f2],
                array_views(perms@)[3 * f2 + 1],
                n as nat,
            ) by {
                assert(array_views(perms@)[3 * f2] == perms@[3 * f2]@);
                assert(array_views(perms@)[3 * f2 + 1] == perms@[3 * f2 + 1]@);
                assert(array_views(perms@)[3 * f2 + 2] == perms@[3 * f2 + 2]@);
            }
            assert(moveset_arrays_valid(array_views(perms@), n as nat));
        }
        let ms = MoveSet { n, perms };
        proof {
            assert forall|m: Move| is_perm(#[trigger] ms.perm_of(m), ms.facelets()) by {
                assert(0 <= move_index_spec(m) < 18);
            }
            assert forall|m: Move| move_index_spec(m) % 3 == 0 implies {
                &&& is_triple_pow(
                    #[trigger] ms.perm_of(m),
                    ms.perm_of(prime_of(m)),
                    ms.facelets(),
                )
                &&& is_double_pow(ms.perm_of(m), ms.perm_of(double_of(m)), ms.facelets())
                &&& is_inverse_of(ms.perm_of(m), ms.perm_of(prime_of(m)), ms.facelets())
            } by {
                let j = move_index_spec(m) / 3;
                assert(0 <= j < 6);
                assert(move_index_spec(m) == 3 * j);
                assert(move_index_spec(prime_of(m)) == 3 * j + 1);
                assert(move_index_spec(double_of(m)) == 3 * j + 2);
            }
        }
        Ok(ms)
    }
}

/// Decides whether `p` is a permutation of `0..n`, by a one-pass
/// seen-marker sweep.
fn check_perm(p: &Vec<u8>, n: usize) -> (b: bool)
    ensures
        b == is_perm(p@, n as nat),
{
    if p.len() != n {
        return false;
    }
    let mut seen: Vec<bool> = Vec::new();
    let mut k: usize = 0;
    while k < n
        invariant
            k <= n,
            seen@.len() == k,
            forall|v: int| 0 <= v < k ==> !(#[trigger] seen@[v]),
        decreases n - k,
    {
        seen.push(false);
        k += 1;
    }
    let mut i: usize = 0;
    while i < n
        invariant
            n == p@.len(),
            seen@.len() == n,
            i <= n,
            forall|v: int|
                0 <= v < n ==> ((#[trigger] seen@[v]) <==> exists|j: int|
                    0 <= j < i && p@[j] == v),
            forall|j: int| 0 <= j < i ==> (#[trigger] p@[j]) < n,
            forall|j1: int, j2: int|
                0 <= j1 < i && 0 <= j2 < i && j1 != j2 ==> p@[j1] != p@[j2],
        decreases n - i,
    {
        let v = p[i];
        if v as usize >= n {
            return false;
        }
        if seen[v as usize] {
            proof {
                let j = choose|j: int| 0 <= j < i && p@[j] == v as int;
                assert(p@[j] == p@[i as int]);
            }
            return false;
        }
        seen[v as usize] = true;
        i += 1;
    }
    true
}

/// Checks the relations among one face's quarter turn `q`, prime turn `pr`
/// and half turn `db`: `pr` is the third power of `q` and undoes it, and
/// `db` is the second power of `q`.
fn check_face_relations(q: &Vec<u8>, pr: &Vec<u8>, db: &Vec<u8>, n: usize) -> (b: bool)
    requires
        is_perm(q@, n as nat),
        is_perm(pr@, n as nat),
        is_perm(db@, n as nat),
    ensures
        b == (is_triple_pow(q@, pr@, n as nat) && is_double_pow(q@, db@, n as nat)
            && is_inverse_of(q@, pr@, n as nat)),
{
    let mut i: usize = 0;
    while i < n
        invariant
            is_perm(q@, n as nat),
            is_perm(pr@, n as nat),
            is_perm(db@, n as nat),
            i <= n,
            forall|j: int|
                0 <= j < i ==> pr@[j] == q@[q@[(#[trigger] q@[j]) as int] as int],
            forall|j: int| 0 <= j < i ==> (#[trigger] db@[j]) == q@[q@[j] as int],
            forall|j: int| 0 <= j < i ==> (#[trigger] pr@[q@[j] as int]) == j,
            forall|j: int| 0 <= j < i ==> (#[trigger] q@[pr@[j] as int]) == j,
        decreases n - i,
    {
        let qi = q[i] as usize;
        if pr[i] as usize != q[q[qi] as usize] as usize {
            return false;
        }
        if db[i] as usize != q[qi] as usize {
            return false;
        }
        if pr[qi] as usize != i {
            return false;
        }
        if q[pr[i] as usize] as usize != i {
            return false;
        }
        i += 1;
    }
    true
}


// ---------------------------------------------------------------------------
// The authored rotation data, at the specification level: the same
// arrays the builders write down, so the builders' contracts can pin
// every move to the data and the conjugation that derives it.
// ---------------------------------------------------------------------------

pub open spec fn cube2_up() -> Seq<u8> {
    seq![2, 0, 3, 1, 8, 9, 6, 7, 12, 13, 10, 11, 16, 17, 14, 15, 4, 5, 18, 19, 20, 21, 22, 23]
}

pub open spec fn cube2_down() -> Seq<u8> {
    seq![0, 1, 2, 3, 4, 5, 18, 19, 8, 9, 6, 7, 12, 13, 10, 11, 16, 17, 14, 15, 22, 20, 23, 21]
}

pub open spec fn cube2_front() -> Seq<u8> {
    seq![0, 1, 7, 5, 4, 20, 6, 21, 10, 8, 11, 9, 2, 13, 3, 15, 16, 17, 18, 19, 14, 12, 22, 23]
}

pub open spec fn cube2_back() -> Seq<u8> {
    seq![13, 15, 2, 3, 1, 5, 0, 7, 8, 9, 10, 11, 12, 23, 14, 22, 18, 16, 19, 17, 20, 21, 4, 6]
}

pub open spec fn cube2_left() -> Seq<u8> {
    seq![19, 1, 17, 3, 6, 4, 7, 5, 0, 9, 2, 11, 12, 13, 14, 15, 16, 22, 18, 20, 8, 21, 10, 23]
}

pub open spec fn cube2_right() -> Seq<u8> {
    seq![0, 9, 2, 11, 4, 5, 6, 7, 8, 21, 10, 23, 14, 12, 15, 13, 3, 17, 1, 19, 20, 18, 22, 16]
}

pub open spec fn cube3_up() -> Seq<u8> {
    seq![
        6, 3, 0, 7, 4, 1, 8, 5, 2, 18, 19, 20, 12, 13, 14, 15, 16, 17, 27, 28, 29, 21, 22, 23,
        24, 25, 26, 36, 37, 38, 30, 31, 32, 33, 34, 35, 9, 10, 11, 39, 40, 41, 42, 43, 44, 45,
        46, 47, 48, 49, 50, 51, 52, 53,
    ]
}

pub open spec fn cube3_x_axis() -> Seq<u8> {
    seq![
        18, 19, 20, 21, 22, 23, 24, 25, 26, 11, 14, 17, 10, 13, 16, 9, 12, 15, 45, 46, 47, 48,
        49, 50, 51, 52, 53, 33, 30, 27, 34, 31, 28, 35, 32, 29, 8, 7, 6, 5, 4, 3, 2, 1, 0, 44,
        43, 42, 41, 40, 39, 38, 37, 36,
    ]
}

pub open spec fn cube3_z_axis() -> Seq<u8> {
    seq![
        15, 12, 9, 16, 13, 10, 17, 14, 11, 51, 48, 45, 52, 49, 46, 53, 50, 47, 24, 21, 18, 25,
        22, 19, 26, 23, 20, 6, 3, 0, 7, 4, 1, 8, 5, 2, 38, 41, 44, 37, 40, 43, 36, 39, 42, 33,
        30, 27, 34, 31, 28, 35, 32, 29,
    ]
}

/// A face derived by conjugation: the axis rotation `a`, then the turn
/// `x`, then the conjugator `b` that undoes `a`.
pub open spec fn conjugate(a: Seq<u8>, x: Seq<u8>, b: Seq<u8>) -> Seq<u8> {
    compose_spec(compose_spec(a, x), b)
}

/// The eighteen arrays the 2-wide builder writes down, in generator
/// order: all six faces authored, each with its derived powers.
pub open spec fn cube2_arrays() -> Seq<Seq<u8>> {
    let ut = face_triple(cube2_up());
    let ft = face_triple(cube2_front());
    let rt = face_triple(cube2_right());
    let dt = face_triple(cube2_down());
    let bt = face_triple(cube2_back());
    let lt = face_triple(cube2_left());
    seq![
        ut.0, ut.1, ut.2, ft.0, ft.1, ft.2, rt.0, rt.1, rt.2, dt.0, dt.1, dt.2, bt.0, bt.1,
        bt.2, lt.0, lt.1, lt.2,
    ]
}

/// The eighteen arrays the 3-wide builder writes down: only the up turn
/// and the two axis rotations are authored; every other face is its
/// conjugate, `other = axis_back * up_power * axis`.
pub open spec fn cube3_arrays() -> Seq<Seq<u8>> {
    let ut = face_triple(cube3_up());
    let xt = face_triple(cube3_x_axis());
    let zt = face_triple(cube3_z_axis());
    seq![
        ut.0, ut.1, ut.2,
        conjugate(xt.0, ut.0, xt.1), conjugate(xt.0, ut.1, xt.1), conjugate(xt.0, ut.2, xt.1),
        conjugate(zt.1, ut.0, zt.0), conjugate(zt.1, ut.1, zt.0), conjugate(zt.1, ut.2, zt.0),
        conjugate(xt.2, ut.0, xt.2), conjugate(xt.2, ut.1, xt.2), conjugate(xt.2, ut.2, xt.2),
        conjugate(xt.1, ut.0, xt.0), conjugate(xt.1, ut.1, xt.0), conjugate(xt.1, ut.2, xt.0),
        conjugate(zt.0, ut.0, zt.1), conjugate(zt.0, ut.1, zt.1), conjugate(zt.0, ut.2, zt.1),
    ]
}

/// The authored 2-wide rotations are self-consistent order-four turns.
proof fn lemma_cube2_data_valid()
    ensures
        quarter_valid(cube2_up(), 24),
        quarter_valid(cube2_down(), 24),
        quarter_valid(cube2_front(), 24),
        quarter_valid(cube2_back(), 24),
        quarter_valid(cube2_left(), 24),
        quarter_valid(cube2_right(), 24),
{
}

/// The authored 3-wide rotations are self-consistent order-four turns.
proof fn lemma_cube3_data_valid()
    ensures
        quarter_valid(cube3_up(), 54),
        quarter_valid(cube3_x_axis(), 54),
        quarter_valid(cube3_z_axis(), 54),
{
}

/// A self-consistent turn yields a valid face: all three powers are
/// permutations, in the prime/half relations, and the prime undoes the
/// quarter turn.
proof fn lemma_face_triple_valid(q: Seq<u8>, n: nat)
    requires
        quarter_valid(q, n),
    ensures
        is_perm(q, n),
        is_perm(face_triple(q).1, n),
        is_perm(face_triple(q).2, n),
        is_double_pow(q, face_triple(q).2, n),
        is_triple_pow(q, face_triple(q).1, n),
        is_inverse_of(q, face_triple(q).1, n),
{
    let q2 = face_triple(q).2;
    let qp = face_triple(q).1;
    assert forall|i: int| 0 <= i < n implies (#[trigger] q2[i]) == q[q[i] as int] by {}
    assert forall|i: int| 0 <= i < n implies (#[trigger] qp[i]) == q[q[(q[i]) as int] as int] by {
        assert(qp[i] == q[q2[i] as int]);
    }
    assert forall|i: int, j: int|
        0 <= i < n && 0 <= j < n && i != j implies q[i] != q[j] by {
        if q[i] == q[j] {
            assert(q[q[q[(#[trigger] q[i]) as int] as int] as int] == i);
            assert(q[q[q[(#[trigger] q[j]) as int] as int] as int] == j);
        }
    }
    assert forall|i: int| 0 <= i < n implies (#[trigger] qp[q[i] as int]) == i by {
        assert(qp[q[i] as int] == q[q[(q[(q[i]) as int]) as int] as int]);
    }
    assert forall|i: int| 0 <= i < n implies (#[trigger] q[qp[i] as int]) == i by {
        assert(q[qp[i] as int] == q[q[q[(q[i]) as int] as int] as int]);
    }
    assert forall|i: int, j: int|
        0 <= i < n && 0 <= j < n && i != j implies q2[i] != q2[j] by {
        if q2[i] == q2[j] {
            assert(q[q[i] as int] == q[q[j] as int]);
        }
    }
    assert forall|i: int, j: int|
        0 <= i < n && 0 <= j < n && i != j implies qp[i] != qp[j] by {
        if qp[i] == qp[j] {
            assert(q[qp[i] as int] == q[qp[j] as int]);
        }
    }
}

/// Conjugating a valid face by a rotation and its undoing partner gives
/// a valid face again: the algebraic heart of deriving every face from
/// the authored up turn.
proof fn lemma_conjugate_face(q: Seq<u8>, a: Seq<u8>, b: Seq<u8>, n: nat)
    requires
        quarter_valid(q, n),
        is_perm(a, n),
        is_perm(b, n),
        forall|i: int| 0 <= i < n ==> (#[trigger] b[a[i] as int]) == i,
        forall|i: int| 0 <= i < n ==> (#[trigger] a[b[i] as int]) == i,
    ensures
        is_perm(conjugate(a, q, b), n),
        is_perm(conjugate(a, face_triple(q).1, b), n),
        is_perm(conjugate(a, face_triple(q).2, b), n),
        is_double_pow(conjugate(a, q, b), conjugate(a, face_triple(q).2, b), n),
        is_triple_pow(conjugate(a, q, b), conjugate(a, face_triple(q).1, b), n),
        is_inverse_of(conjugate(a, q, b), conjugate(a, face_triple(q).1, b), n),
{
    lemma_face_triple_valid(q, n);
    let q2 = face_triple(q).2;
    let qp = face_triple(q).1;
    let fm = conjugate(a, q, b);
    let fp = conjugate(a, qp, b);
    let f2 = conjugate(a, q2, b);
    assert forall|i: int| 0 <= i < n implies (#[trigger] fm[i]) == b[q[a[i] as int] as int] by {
        assert(fm[i] == b[compose_spec(a, q)[i] as int]);
    }
    assert forall|i: int| 0 <= i < n implies (#[trigger] fp[i]) == b[qp[a[i] as int] as int] by {
        assert(fp[i] == b[compose_spec(a, qp)[i] as int]);
    }
    assert forall|i: int| 0 <= i < n implies (#[trigger] f2[i]) == b[q2[a[i] as int] as int] by {
        assert(f2[i] == b[compose_spec(a, q2)[i] as int]);
    }
    assert forall|i: int, j: int|
        0 <= i < n && 0 <= j < n && i != j implies fm[i] != fm[j] by {
        if fm[i] == fm[j] {
            assert(a[b[q[a[i] as int] as int] as int] == a[b[q[a[j] as int] as int] as int]);
            assert(q[a[i] as int] == q[a[j] as int]);
        }
    }
    assert forall|i: int, j: int|
        0 <= i < n && 0 <= j < n && i != j implies fp[i] != fp[j] by {
        if fp[i] == fp[j] {
            assert(a[b[qp[a[i] as int] as int] as int] == a[b[qp[a[j] as int] as int] as int]);
            assert(qp[a[i] as int] == qp[a[j] as int]);
        }
    }
    assert forall|i: int, j: int|
        0 <= i < n && 0 <= j < n && i != j implies f2[i] != f2[j] by {
        if f2[i] == f2[j] {
            assert(a[b[q2[a[i] as int] as int] as int] == a[b[q2[a[j] as int] as int] as int]);
            assert(q2[a[i] as int] == q2[a[j] as int]);
        }
    }
    assert forall|i: int| 0 <= i < n implies (#[trigger] f2[i]) == fm[fm[i] as int] by {
        assert(fm[fm[i] as int] == b[q[a[b[q[a[i] as int] as int] as int] as int] as int]);
        assert(a[b[q[a[i] as int] as int] as int] == q[a[i] as int]);
        assert(q2[a[i] as int] == q[q[a[i] as int] as int]);
    }
    assert forall|i: int|
        0 <= i < n implies (#[trigger] fp[i]) == fm[fm[(fm[i]) as int] as int] by {
        let y = a[i] as int;
        assert(fm[i] == b[q[y] as int]);
        assert(fm[fm[i] as int] == b[q[a[b[q[y] as int] as int] as int] as int]);
        assert(a[b[q[y] as int] as int] == q[y]);
        assert(fm[fm[i] as int] == b[q[q[y] as int] as int]);
        assert(fm[fm[(fm[i]) as int] as int] == b[q[a[b[q[q[y] as int] as int] as int] as int] as int]);
        assert(a[b[q[q[y] as int] as int] as int] == q[q[y] as int]);
        assert(fm[fm[(fm[i]) as int] as int] == b[q[q[q[y] as int] as int] as int]);
        assert(qp[y] == q[q[(q[y]) as int] as int]);
    }
    assert forall|i: int| 0 <= i < n implies (#[trigger] fp[fm[i] as int]) == i by {
        let y = a[i] as int;
        assert(fp[fm[i] as int] == b[qp[a[b[q[y] as int] as int] as int] as int]);
        assert(a[b[q[y] as int] as int] == q[y]);
        assert(qp[(q[y]) as int] == y);
        assert(fp[fm[i] as int] == b[a[i] as int]);
    }
    assert forall|i: int| 0 <= i < n implies (#[trigger] fm[fp[i] as int]) == i by {
        let y = a[i] as int;
        assert(fm[fp[i] as int] == b[q[a[b[qp[y] as int] as int] as int] as int]);
        assert(a[b[qp[y] as int] as int] == qp[y]);
        assert(q[(qp[y]) as int] == y);
        assert(fm[fp[i] as int] == b[a[i] as int]);
    }
}

/// The 2-wide arrays pass every constructor check.
proof fn lemma_cube2_arrays_valid()
    ensures
        moveset_arrays_valid(cube2_arrays(), 24),
{
    lemma_cube2_data_valid();
    lemma_face_triple_valid(cube2_up(), 24);
    lemma_face_triple_valid(cube2_front(), 24);
    lemma_face_triple_valid(cube2_right(), 24);
    lemma_face_triple_valid(cube2_down(), 24);
    lemma_face_triple_valid(cube2_back(), 24);
    lemma_face_triple_valid(cube2_left(), 24);
}

/// The 3-wide arrays pass every constructor check: the up face directly,
/// every other face through the conjugation lemma.
#[verifier::rlimit(100)]
proof fn lemma_cube3_arrays_valid()
    ensures
        moveset_arrays_valid(cube3_arrays(), 54),
{
    lemma_cube3_data_valid();
    let ut = face_triple(cube3_up());
    let xt = face_triple(cube3_x_axis());
    let zt = face_triple(cube3_z_axis());
    lemma_face_triple_valid(cube3_up(), 54);
    lemma_face_triple_valid(cube3_x_axis(), 54);
    lemma_face_triple_valid(cube3_z_axis(), 54);
    let x = xt.0;
    let x2 = xt.2;
    // The half axis rotation undoes itself.
    assert forall|i: int| 0 <= i < 54 implies (#[trigger] x2[x2[i] as int]) == i by {
        assert(x2[i] == x[x[i] as int]);
        assert(x2[x2[i] as int] == x[x[(x[x[i] as int]) as int] as int]);
        assert(x[x[x[(#[trigger] x[i]) as int] as int] as int] == i);
    }
    lemma_conjugate_face(cube3_up(), xt.0, xt.1, 54);
    lemma_conjugate_face(cube3_up(), xt.1, xt.0, 54);
    lemma_conjugate_face(cube3_up(), zt.1, zt.0, 54);
    lemma_conjugate_face(cube3_up(), zt.0, zt.1, 54);
    lemma_conjugate_face(cube3_up(), xt.2, xt.2, 54);
}

/// The product of two index arrays, in matrix order: applying the result
/// equals applying `q` to the data and then `p`.
fn compose(p: &Vec<u8>, q: &Vec<u8>, n: usize) -> (r: Vec<u8>)
    requires
        p@.len() == n,
        q@.len() == n,
        crate::perm::indexes_into(p@, n as nat),
        crate::perm::indexes_into(q@, n as nat),
    ensures
        r@ == compose_spec(p@, q@),
        r@.len() == n,
        crate::perm::indexes_into(r@, n as nat),
{
    let r = apply_perm(p, q);
    proof {
        assert forall|i: int| 0 <= i < r@.len() implies (#[trigger] r@[i]) < n by {
            assert(r@[i] == q@[p@[i] as int]);
        }
    }
    r
}

/// The three non-identity powers of one authored quarter turn, in
/// generator order: the turn, its prime and its half turn.
fn face_powers(q: Vec<u8>, n: usize) -> (r: Result<(Vec<u8>, Vec<u8>, Vec<u8>), SolverError>)
    ensures
        r is Ok <==> is_perm(q@, n as nat),
        r matches Ok(t) ==> t.0@ == q@ && t.1@ == face_triple(q@).1 && t.2@ == face_triple(q@).2,
        r matches Err(e) ==> e == SolverError::Configuration,
{
    if !check_perm(&q, n) {
        return Err(SolverError::Configuration);
    }
    let q2 = compose(&q, &q, n);
    let qp = compose(&q2, &q, n);
    Ok((q, qp, q2))
}

/// The move set of the 2-wide puzzle: all six faces are authored as index
/// arrays and their powers are derived, then the whole set is validated.
/// The authored data provably passes every check, so construction always
/// succeeds and every move is pinned to its array.
pub fn cube2() -> (r: Result<MoveSet, SolverError>)
    ensures
        r is Ok,
        r matches Ok(ms) ==> ms.wf() && ms.facelets() == 24 && forall|m: Move|
            #[trigger] ms.perm_of(m) == cube2_arrays()[move_index_spec(m)],
{
    let u: Vec<u8> = vec![
        2, 0, 3, 1, 8, 9, 6, 7, 12, 13, 10, 11, 16, 17, 14, 15, 4, 5, 18, 19, 20, 21, 22, 23,
    ];
    let d: Vec<u8> = vec![
        0, 1, 2, 3, 4, 5, 18, 19, 8, 9, 6, 7, 12, 13, 10, 11, 16, 17, 14, 15, 22, 20, 23, 21,
    ];
    let f: Vec<u8> = vec![
        0, 1, 7, 5, 4, 20, 6, 21, 10, 8, 11, 9, 2, 13, 3, 15, 16, 17, 18, 19, 14, 12, 22, 23,
    ];
    let b: Vec<u8> = vec![
        13, 15, 2, 3, 1, 5, 0, 7, 8, 9, 10, 11, 12, 23, 14, 22, 18, 16, 19, 17, 20, 21, 4, 6,
    ];
    let l: Vec<u8> = vec![
        19, 1, 17, 3, 6, 4, 7, 5, 0, 9, 2, 11, 12, 13, 14, 15, 16, 22, 18, 20, 8, 21, 10, 23,
    ];
    let r: Vec<u8> = vec![
        0, 9, 2, 11, 4, 5, 6, 7, 8, 21, 10, 23, 14, 12, 15, 13, 3, 17, 1, 19, 20, 18, 22, 16,
    ];
    proof {
        assert(u@ =~= cube2_up());
        assert(d@ =~= cube2_down());
        assert(f@ =~= cube2_front());
        assert(b@ =~= cube2_back());
        assert(l@ =~= cube2_left());
        assert(r@ =~= cube2_right());
        lemma_cube2_data_valid();
        lemma_face_triple_valid(cube2_up(), 24);
        lemma_face_triple_valid(cube2_front(), 24);
        lemma_face_triple_valid(cube2_right(), 24);
        lemma_face_triple_valid(cube2_down(), 24);
        lemma_face_triple_valid(cube2_back(), 24);
        lemma_face_triple_valid(cube2_left(), 24);
    }
    let (u, up, u2) = match face_powers(u, 24) {
        Ok(t) => t,
        Err(e) => {
            return Err(e);
        },
    };
    let (f, fp, f2) = match face_powers(f, 24) {
        Ok(t) => t,
        Err(e) => {
            return Err(e);
        },
    };
    let (r, rp, r2) = match face_powers(r, 24) {
        Ok(t) => t,
        Err(e) => {
            return Err(e);
        },
    };
    let (d, dp, d2) = match face_powers(d, 24) {
        Ok(t) => t,
        Err(e) => {
            return Err(e);
        },
    };
    let (b, bp, b2) = match face_powers(b, 24) {
        Ok(t) => t,
        Err(e) => {
            return Err(e);
        },
    };
    let (l, lp, l2) = match face_powers(l, 24) {
        Ok(t) => t,
        Err(e) => {
            return Err(e);
        },
    };
    let perms: Vec<Vec<u8>> = vec![
        u, up, u2, f, fp, f2, r, rp, r2, d, dp, d2, b, bp, b2, l, lp, l2,
    ];
    proof {
        assert(array_views(perms@) =~= cube2_arrays());
        lemma_cube2_arrays_valid();
    }
    let res = MoveSet::new(24, perms);
    proof {
        if res is Ok {
            let ms = res->Ok_0;
            assert forall|m: Move| #[trigger] ms.perm_of(m) == cube2_arrays()[move_index_spec(
                m,
            )] by {
                assert(0 <= move_index_spec(m) < 18);
                assert(array_views(perms@)[move_index_spec(m)] == perms@[move_index_spec(m)]@);
            }
        }
    }
    res
}

/// The move set of the standard 3-wide puzzle.  Only the up face and the
/// two whole-puzzle axis rotations are authored; every other face is
/// derived by conjugation, `other = axis' * up * axis`, which keeps the
/// hand-written data small and the derived moves bijections by
/// construction.  The authored data provably passes every check, so
/// construction always succeeds, and every move is pinned to the
/// conjugation that derives it.
#[verifier::rlimit(100)]
pub fn cube3() -> (r: Result<MoveSet, SolverError>)
    ensures
        r is Ok,
        r matches Ok(ms) ==> ms.wf() && ms.facelets() == 54 && forall|m: Move|
            #[trigger] ms.perm_of(m) == cube3_arrays()[move_index_spec(m)],
{
    let u: Vec<u8> = vec![
        6, 3, 0, 7, 4, 1, 8, 5, 2, 18, 19, 20, 12, 13, 14, 15, 16, 17, 27, 28, 29, 21, 22, 23,
        24, 25, 26, 36, 37, 38, 30, 31, 32, 33, 34, 35, 9, 10, 11, 39, 40, 41, 42, 43, 44, 45,
        46, 47, 48, 49, 50, 51, 52, 53,
    ];
    let x: Vec<u8> = vec![
        18, 19, 20, 21, 22, 23, 24, 25, 26, 11, 14, 17, 10, 13, 16, 9, 12, 15, 45, 46, 47, 48,
        49, 50, 51, 52, 53, 33, 30, 27, 34, 31, 28, 35, 32, 29, 8, 7, 6, 5, 4, 3, 2, 1, 0, 44,
        43, 42, 41, 40, 39, 38, 37, 36,
    ];
    let z: Vec<u8> = vec![
        15, 12, 9, 16, 13, 10, 17, 14, 11, 51, 48, 45, 52, 49, 46, 53, 50, 47, 24, 21, 18, 25,
        22, 19, 26, 23, 20, 6, 3, 0, 7, 4, 1, 8, 5, 2, 38, 41, 44, 37, 40, 43, 36, 39, 42, 33,
        30, 27, 34, 31, 28, 35, 32, 29,
    ];
    proof {
        assert(u@ =~= cube3_up());
        assert(x@ =~= cube3_x_axis());
        assert(z@ =~= cube3_z_axis());
        lemma_cube3_data_valid();
        lemma_face_triple_valid(cube3_up(), 54);
        lemma_face_triple_valid(cube3_x_axis(), 54);
        lemma_face_triple_valid(cube3_z_axis(), 54);
    }
    if !check_perm(&u, 54) || !check_perm(&x, 54) || !check_perm(&z, 54) {
        return Err(SolverError::Configuration);
    }
    let u2 = compose(&u, &u, 54);
    let up = compose(&u2, &u, 54);
    let x2 = compose(&x, &x, 54);
    let xp = compose(&x2, &x, 54);
    let z2 = compose(&z, &z, 54);
    let zp = compose(&z2, &z, 54);

    let fm = compose(&compose(&x, &u, 54), &xp, 54);
    let fp = compose(&compose(&x, &up, 54), &xp, 54);
    let f2 = compose(&compose(&x, &u2, 54), &xp, 54);

    let bm = compose(&compose(&xp, &u, 54), &x, 54);
    let bp = compose(&compose(&xp, &up, 54), &x, 54);
    let b2 = compose(&compose(&xp, &u2, 54), &x, 54);

    let rm = compose(&compose(&zp, &u, 54), &z, 54);
    let rp = compose(&compose(&zp, &up, 54), &z, 54);
    let r2 = compose(&compose(&zp, &u2, 54), &z, 54);

    let lm = compose(&compose(&z, &u, 54), &zp, 54);
    let lp = compose(&compose(&z, &up, 54), &zp, 54);
    let l2 = compose(&compose(&z, &u2, 54), &zp, 54);

    let dm = compose(&compose(&x2, &u, 54), &x2, 54);
    let dp = compose(&compose(&x2, &up, 54), &x2, 54);
    let d2 = compose(&compose(&x2, &u2, 54), &x2, 54);

    let perms: Vec<Vec<u8>> = vec![
        u, up, u2, fm, fp, f2, rm, rp, r2, dm, dp, d2, bm, bp, b2, lm, lp, l2,
    ];
    proof {
        assert(array_views(perms@) =~= cube3_arrays());
        lemma_cube3_arrays_valid();
    }
    let res = MoveSet::new(54, perms);
    proof {
        if res is Ok {
            let ms = res->Ok_0;
            assert forall|m: Move| #[trigger] ms.perm_of(m) == cube3_arrays()[move_index_spec(
                m,
            )] by {
                assert(0 <= move_index_spec(m) < 18);
                assert(array_views(perms@)[move_index_spec(m)] == perms@[move_index_spec(m)]@);
            }
        }
    }
    res
}

// ---------------------------------------------------------------------------
// The group laws of a validated move set.
// ---------------------------------------------------------------------------

/// One move applied to a facelet vector, at the specification level.
pub open spec fn step_spec(ms: MoveSet, d: Seq<u8>, m: Move) -> Seq<u8> {
    apply_spec(ms.perm_of(m), d)
}

/// A move sequence applied left to right, at the specification level.
pub open spec fn apply_moves_spec(ms: MoveSet, d: Seq<u8>, mv: Seq<Move>) -> Seq<u8>
    decreases mv.len(),
{
    if mv.len() == 0 {
        d
    } else {
        apply_moves_spec(ms, step_spec(ms, d, mv[0]), mv.skip(1))
    }
}

/// The sequence that undoes `mv`: the inverses of its moves, last first.
pub open spec fn inverse_seq_spec(mv: Seq<Move>) -> Seq<Move> {
    Seq::new(mv.len(), |i: int| inverse_spec(mv[mv.len() - 1 - i]))
}

proof fn lemma_step_len(ms: MoveSet, d: Seq<u8>, m: Move)
    requires
        ms.wf(),
        d.len() == ms.facelets(),
    ensures
        step_spec(ms, d, m).len() == ms.facelets(),
{
    assert(is_perm(ms.perm_of(m), ms.facelets()));
}

/// Each face's quarter turn, taken four times in a row, and each half
/// turn, taken twice, leaves every facelet vector unchanged: the
/// generators have the order their names give them.
pub proof fn law_generator_order(ms: MoveSet, d: Seq<u8>, m: Move)
    requires
        ms.wf(),
        d.len() == ms.facelets(),
    ensures
        is_half_turn(m) ==> step_spec(ms, step_spec(ms, d, m), m) == d,
        !is_half_turn(m) ==> step_spec(
            ms,
            step_spec(ms, step_spec(ms, step_spec(ms, d, m), m), m),
            m,
        ) == d,
{
    let n = ms.facelets();
    let fq = face_quarter(m);
    let q = ms.perm_of(fq);
    let pr = ms.perm_of(prime_of(fq));
    let db = ms.perm_of(double_of(fq));
    assert(move_index_spec(fq) % 3 == 0);
    assert(is_perm(q, n) && is_perm(pr, n) && is_perm(db, n));
    // The quarter turn has order four, pointwise.
    assert forall|i: int| 0 <= i < n implies q[q[q[(#[trigger] q[i]) as int] as int] as int]
        == i by {
        assert(pr[q[i] as int] == q[q[(q[q[i] as int]) as int] as int]);
        assert(pr[q[i] as int] == i);
    }
    if is_half_turn(m) {
        // m is the half turn of its face: pointwise self-inverse.
        assert(m == double_of(fq));
        assert forall|i: int| 0 <= i < n implies db[(#[trigger] db[i]) as int] == i by {
            assert(db[i] == q[q[i] as int]);
            assert(db[db[i] as int] == q[q[(q[q[i] as int]) as int] as int]);
            assert(pr[q[i] as int] == q[q[(q[q[i] as int]) as int] as int]);
        }
        lemma_apply_two(db, d);
    } else if move_index_spec(m) % 3 == 0 {
        assert(m == fq);
        lemma_apply_four(q, d);
    } else {
        // m is the prime turn: it is the inverse of the quarter turn, whose
        // fourth power is the identity, so its own fourth power is too.
        assert(m == prime_of(fq));
        let d1 = step_spec(ms, d, m);
        let d2 = step_spec(ms, d1, m);
        let d3 = step_spec(ms, d2, m);
        let d4 = step_spec(ms, d3, m);
        lemma_step_len(ms, d, m);
        lemma_step_len(ms, d1, m);
        lemma_step_len(ms, d2, m);
        lemma_step_len(ms, d3, m);
        lemma_apply_inverse(pr, q, d);
        lemma_apply_inverse(pr, q, d1);
        lemma_apply_inverse(pr, q, d2);
        lemma_apply_inverse(pr, q, d3);
        assert(apply_spec(q, d1) == d);
        assert(apply_spec(q, d2) == d1);
        assert(apply_spec(q, d3) == d2);
        assert(apply_spec(q, d4) == d3);
        lemma_apply_four(q, d4);
        assert(apply_spec(q, apply_spec(q, apply_spec(q, apply_spec(q, d4)))) == d4);
        assert(apply_spec(q, apply_spec(q, apply_spec(q, d3))) == d4);
    }
}

/// The face quarter turn that `m` is a power of.
pub open spec fn face_quarter(m: Move) -> Move {
    all_moves_spec()[3 * (move_index_spec(m) / 3)]
}

/// Applying a move and then its inverse leaves every facelet vector
/// unchanged.
pub proof fn law_move_inverse(ms: MoveSet, d: Seq<u8>, m: Move)
    requires
        ms.wf(),
        d.len() == ms.facelets(),
    ensures
        step_spec(ms, step_spec(ms, d, m), inverse_spec(m)) == d,
{
    let n = ms.facelets();
    let fq = face_quarter(m);
    let q = ms.perm_of(fq);
    let pr = ms.perm_of(prime_of(fq));
    let db = ms.perm_of(double_of(fq));
    assert(move_index_spec(fq) % 3 == 0);
    assert(is_perm(q, n) && is_perm(pr, n) && is_perm(db, n));
    if move_index_spec(m) % 3 == 0 {
        assert(m == fq && inverse_spec(m) == prime_of(fq));
        lemma_apply_inverse(q, pr, d);
    } else if move_index_spec(m) % 3 == 1 {
        assert(m == prime_of(fq) && inverse_spec(m) == fq);
        lemma_apply_inverse(pr, q, d);
    } else {
        assert(m == double_of(fq) && inverse_spec(m) == m);
        assert forall|i: int| 0 <= i < n implies db[(#[trigger] db[i]) as int] == i by {
            assert(db[i] == q[q[i] as int]);
            assert(db[db[i] as int] == q[q[(q[q[i] as int]) as int] as int]);
            assert(pr[q[i] as int] == q[q[(q[q[i] as int]) as int] as int]);
            assert(pr[q[i] as int] == i);
        }
        assert(is_inverse_of(db, db, n));
        lemma_apply_inverse(db, db, d);
    }
}

/// A move sequence distributes over concatenation.
pub proof fn lemma_apply_moves_concat(ms: MoveSet, d: Seq<u8>, a: Seq<Move>, b: Seq<Move>)
    ensures
        apply_moves_spec(ms, d, a + b) == apply_moves_spec(ms, apply_moves_spec(ms, d, a), b),
    decreases a.len(),
{
    if a.len() == 0 {
        assert(a + b =~= b);
    } else {
        assert((a + b)[0] == a[0]);
        assert((a + b).skip(1) =~= a.skip(1) + b);
        lemma_apply_moves_concat(ms, step_spec(ms, d, a[0]), a.skip(1), b);
    }
}

proof fn lemma_apply_moves_len(ms: MoveSet, d: Seq<u8>, mv: Seq<Move>)
    requires
        ms.wf(),
        d.len() == ms.facelets(),
    ensures
        apply_moves_spec(ms, d, mv).len() == ms.facelets(),
    decreases mv.len(),
{
    if mv.len() > 0 {
        lemma_step_len(ms, d, mv[0]);
        lemma_apply_moves_len(ms, step_spec(ms, d, mv[0]), mv.skip(1));
    }
}

/// Applying a move sequence and then its inverse sequence leaves every
/// facelet vector unchanged.
pub proof fn law_sequence_inverse(ms: MoveSet, d: Seq<u8>, mv: Seq<Move>)
    requires
        ms.wf(),
        d.len() == ms.facelets(),
    ensures
        apply_moves_spec(ms, apply_moves_spec(ms, d, mv), inverse_seq_spec(mv)) == d,
    decreases mv.len(),
{
    if mv.len() == 0 {
    } else {
        let m = mv[0];
        let d1 = step_spec(ms, d, m);
        lemma_step_len(ms, d, m);
        law_sequence_inverse(ms, d1, mv.skip(1));
        // inverse_seq(mv) = inverse_seq(mv.skip(1)) + [inverse(m)]
        assert(inverse_seq_spec(mv) =~= inverse_seq_spec(mv.skip(1)) + seq![inverse_spec(m)]);
        lemma_apply_moves_concat(
            ms,
            apply_moves_spec(ms, d1, mv.skip(1)),
            inverse_seq_spec(mv.skip(1)),
            seq![inverse_spec(m)],
        );
        assert(seq![inverse_spec(m)].skip(1) =~= Seq::<Move>::empty());
        assert(apply_moves_spec(
            ms,
            step_spec(ms, d1, inverse_spec(m)),
            Seq::<Move>::empty(),
        ) == step_spec(ms, d1, inverse_spec(m)));
        assert(apply_moves_spec(ms, d1, seq![inverse_spec(m)]) == step_spec(
            ms,
            d1,
            inverse_spec(m),
        ));
        law_move_inverse(ms, d, m);
    }
}

} // verus!

