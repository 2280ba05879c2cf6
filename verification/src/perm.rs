use vstd::prelude::*;

verus! {

/// A move permutation is a plain index array `p`: applying it to a facelet
/// vector `d` yields the vector whose slot `i` holds `d[p[i]]`.  Composition
/// of two such arrays is the same operation with the second array in the
/// role of the data, exactly as a product of permutation matrices.

/// `p` maps every index below `n` to an index below `n`, injectively.
pub open spec fn is_perm(p: Seq<u8>, n: nat) -> bool {
    &&& p.len() == n
    &&& forall|i: int| 0 <= i < n ==> (#[trigger] p[i]) < n
    &&& forall|i: int, j: int| 0 <= i < n && 0 <= j < n && i != j ==> p[i] != p[j]
}

/// The vector obtained from `d` by the index array `p`.
pub open spec fn apply_spec(p: Seq<u8>, d: Seq<u8>) -> Seq<u8> {
    Seq::new(p.len(), |i: int| d[p[i] as int])
}

/// `p` only needs to index into `d`; injectivity is not required to apply it.
pub open spec fn indexes_into(p: Seq<u8>, n: nat) -> bool {
    forall|i: int| 0 <= i < p.len() ==> (#[trigger] p[i]) < n
}

/// Applies the index array `p` to the data vector `d`.
pub fn apply_perm(p: &Vec<u8>, d: &Vec<u8>) -> (r: Vec<u8>)
    requires
        indexes_into(p@, d@.len()),
    ensures
        r@ == apply_spec(p@, d@),
{
    let mut r: Vec<u8> = Vec::new();
    let mut i: usize = 0;
    while i < p.len()
        invariant
            indexes_into(p@, d@.len()),
            i <= p@.len(),
            r@.len() == i,
            forall|j: int| 0 <= j < i ==> r@[j] == d@[p@[j] as int],
        decreases p@.len() - i,
    {
        r.push(d[p[i] as usize]);
        i += 1;
    }
    proof {
        assert(r@ =~= apply_spec(p@, d@));
    }
    r
}

/// `q` composed after `p`, as index arrays: the single array whose
/// application equals applying `q` to the data and then `p`.
pub open spec fn compose_spec(p: Seq<u8>, q: Seq<u8>) -> Seq<u8> {
    apply_spec(p, q)
}

/// Applying a composite array is applying its factors one after the other:
/// `compose_spec(p, q)` applied to `d` equals `q` applied to `d`, then `p`.
pub proof fn lemma_apply_compose(p: Seq<u8>, q: Seq<u8>, d: Seq<u8>)
    requires
        indexes_into(p, q.len()),
        indexes_into(q, d.len()),
    ensures
        apply_spec(compose_spec(p, q), d) == apply_spec(p, apply_spec(q, d)),
{
    assert(apply_spec(compose_spec(p, q), d) =~= apply_spec(p, apply_spec(q, d)));
}

/// `q` undoes `p` (and `p` undoes `q`) on indices below `n`.
pub open spec fn is_inverse_of(p: Seq<u8>, q: Seq<u8>, n: nat) -> bool {
    &&& forall|i: int| 0 <= i < n ==> (#[trigger] q[p[i] as int]) == i
    &&& forall|i: int| 0 <= i < n ==> (#[trigger] p[q[i] as int]) == i
}

/// Applying `p` and then its inverse `q` returns every data vector unchanged.
pub proof fn lemma_apply_inverse(p: Seq<u8>, q: Seq<u8>, d: Seq<u8>)
    requires
        is_perm(p, d.len()),
        is_perm(q, d.len()),
        is_inverse_of(p, q, d.len()),
    ensures
        apply_spec(q, apply_spec(p, d)) == d,
{
    assert(apply_spec(q, apply_spec(p, d)) =~= d);
}

/// A fourth power that is the identity pointwise makes four applications
/// of `p` the identity on every data vector of matching length.
pub proof fn lemma_apply_four(p: Seq<u8>, d: Seq<u8>)
    requires
        is_perm(p, d.len()),
        forall|i: int| 0 <= i < d.len() ==> p[p[p[(#[trigger] p[i]) as int] as int] as int] == i,
    ensures
        apply_spec(p, apply_spec(p, apply_spec(p, apply_spec(p, d)))) == d,
{
    assert(apply_spec(p, apply_spec(p, apply_spec(p, apply_spec(p, d)))) =~= d);
}

/// A fresh byte vector with the same contents.
pub fn copy_bytes(v: &Vec<u8>) -> (r: Vec<u8>)
    ensures
        r@ == v@,
{
    let n = v.len();
    let mut r: Vec<u8> = Vec::new();
    let mut i: usize = 0;
    while i < n
        invariant
            n == v@.len(),
            i <= n,
            r@ == v@.take(i as int),
        decreases n - i,
    {
        r.push(v[i]);
        proof {
            assert(v@.take(i as int).push(v@[i as int]) =~= v@.take(i + 1));
        }
        i += 1;
    }
    proof {
        assert(v@.take(n as int) =~= v@);
    }
    r
}

/// Element-wise equality of two byte vectors.
pub fn eq_bytes(a: &Vec<u8>, b: &Vec<u8>) -> (r: bool)
    ensures
        r == (a@ == b@),
{
    if a.len() != b.len() {
        return false;
    }
    let n = a.len();
    let mut i: usize = 0;
    while i < n
        invariant
            n == a@.len(),
            n == b@.len(),
            i <= n,
            forall|j: int| 0 <= j < i ==> a@[j] == b@[j],
        decreases n - i,
    {
        if a[i] != b[i] {
            return false;
        }
        i += 1;
    }
    proof {
        assert(a@ =~= b@);
    }
    true
}

/// A second power that is the identity pointwise makes two applications
/// of `p` the identity on every data vector of matching length.
pub proof fn lemma_apply_two(p: Seq<u8>, d: Seq<u8>)
    requires
        is_perm(p, d.len()),
        forall|i: int| 0 <= i < d.len() ==> p[(#[trigger] p[i]) as int] == i,
    ensures
        apply_spec(p, apply_spec(p, d)) == d,
{
    assert(apply_spec(p, apply_spec(p, d)) =~= d);
}

} // verus!
