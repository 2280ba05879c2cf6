use vstd::prelude::*;

use crate::cube::{Corner, Cube, Edge, MASKED, corner_index_spec, edge_index_spec};

verus! {

/// State keys: a facelet vector is first relabeled so colors are numbered
/// by first appearance (which quotients away whole-puzzle recolorings),
/// then rendered printable through base64.

/// The canonical relabeling after `i` facelets: the relabeled prefix, the
/// assignment of original colors to canonical ones, and the next free
/// canonical color.
pub open spec fn canon_state(s: Seq<u8>, i: int) -> (Seq<u8>, Map<u8, u8>, u8)
    decreases i,
{
    if i <= 0 {
        (Seq::empty(), Map::empty(), 0)
    } else {
        let prev = canon_state(s, i - 1);
        let x = s[i - 1];
        if prev.1.dom().contains(x) {
            (prev.0.push(prev.1[x]), prev.1, prev.2)
        } else {
            (
                prev.0.push(prev.2),
                prev.1.insert(x, prev.2),
                if prev.2 == 255 {
                    0u8
                } else {
                    (prev.2 + 1) as u8
                },
            )
        }
    }
}

/// The facelet vector relabeled by first appearance.
pub open spec fn canon_spec(s: Seq<u8>) -> Seq<u8> {
    canon_state(s, s.len() as int).0
}

/// Two vectors show one color pattern: any two slots agree in one
/// exactly when they agree in the other, as after a whole-puzzle
/// recoloring.
pub open spec fn same_pattern(s1: Seq<u8>, s2: Seq<u8>) -> bool {
    s1.len() == s2.len() && forall|i: int, j: int|
        0 <= i < s1.len() && 0 <= j < s1.len() ==> ((s1[i] == s1[j]) <==> (s2[i] == s2[j]))
}

proof fn lemma_canon_dom(s: Seq<u8>, i: int, v: u8)
    ensures
        canon_state(s, i).1.dom().contains(v) <==> exists|j: int| 0 <= j < i && s[j] == v,
    decreases i,
{
    if i <= 0 {
    } else {
        lemma_canon_dom(s, i - 1, v);
        if canon_state(s, i).1.dom().contains(v) {
            if v == s[i - 1] {
                assert(0 <= i - 1 < i && s[i - 1] == v);
            }
        }
        if exists|j: int| 0 <= j < i && s[j] == v {
            let j = choose|j: int| 0 <= j < i && s[j] == v;
            if j < i - 1 {
                assert(exists|j2: int| 0 <= j2 < i - 1 && s[j2] == v);
            }
        }
    }
}

proof fn lemma_canon_align(s1: Seq<u8>, s2: Seq<u8>, i: int)
    requires
        same_pattern(s1, s2),
        i <= s1.len(),
    ensures
        canon_state(s1, i).0 == canon_state(s2, i).0,
        canon_state(s1, i).2 == canon_state(s2, i).2,
        forall|j: int|
            0 <= j < i ==> canon_state(s1, i).1[#[trigger] s1[j]] == canon_state(s2, i).1[s2[j]],
    decreases i,
{
    if i <= 0 {
    } else {
        lemma_canon_align(s1, s2, i - 1);
        let m1 = canon_state(s1, i - 1).1;
        let m2 = canon_state(s2, i - 1).1;
        let x1 = s1[i - 1];
        let x2 = s2[i - 1];
        lemma_canon_dom(s1, i - 1, x1);
        lemma_canon_dom(s2, i - 1, x2);
        if m1.dom().contains(x1) {
            let j = choose|j: int| 0 <= j < i - 1 && s1[j] == x1;
            assert(s2[j] == x2);
            assert(m2.dom().contains(x2)) by {
                assert(0 <= j < i - 1 && s2[j] == x2);
            }
            assert(m1[x1] == m2[x2]) by {
                assert(m1[s1[j]] == m2[s2[j]]);
            }
            assert forall|k: int|
                0 <= k < i implies canon_state(s1, i).1[#[trigger] s1[k]] == canon_state(
                s2,
                i,
            ).1[s2[k]] by {
                if k < i - 1 {
                    assert(m1[s1[k]] == m2[s2[k]]);
                }
            }
        } else {
            assert(!m2.dom().contains(x2)) by {
                if m2.dom().contains(x2) {
                    let j = choose|j: int| 0 <= j < i - 1 && s2[j] == x2;
                    assert(s1[j] == x1);
                    assert(m1.dom().contains(x1));
                }
            }
            assert forall|k: int|
                0 <= k < i implies canon_state(s1, i).1[#[trigger] s1[k]] == canon_state(
                s2,
                i,
            ).1[s2[k]] by {
                if k < i - 1 {
                    if s1[k] == x1 {
                        assert(m1.dom().contains(x1)) by {
                            lemma_canon_dom(s1, i - 1, x1);
                            assert(0 <= k < i - 1 && s1[k] == x1);
                        }
                        assert(false);
                    }
                    assert(s2[k] != x2);
                    assert(m1[s1[k]] == m2[s2[k]]);
                }
            }
        }
    }
}

/// Two states that differ only by a recoloring share one canonical form:
/// the relabeling by first appearance quotients away exactly the color
/// names, so one persisted key covers a state and all its recolorings.
pub proof fn law_canon_recolor_invariant(s1: Seq<u8>, s2: Seq<u8>)
    requires
        same_pattern(s1, s2),
    ensures
        canon_spec(s1) == canon_spec(s2),
{
    lemma_canon_align(s1, s2, s1.len() as int);
}

proof fn lemma_canon_len(s: Seq<u8>, i: int)
    requires
        0 <= i,
    ensures
        canon_state(s, i).0.len() == i,
    decreases i,
{
    if i > 0 {
        lemma_canon_len(s, i - 1);
    }
}

/// After `i` facelets, the relabeling map is a finite injection whose
/// values are exactly the canonical colors handed out so far, and every
/// output slot holds its color's canonical value.
proof fn lemma_canon_out_inj(s: Seq<u8>, i: int)
    requires
        0 <= i <= s.len(),
        s.len() <= 255,
    ensures
        canon_state(s, i).0.len() == i,
        canon_state(s, i).1.dom().finite(),
        canon_state(s, i).1.dom().len() == canon_state(s, i).2,
        canon_state(s, i).2 <= i,
        forall|v: u8|
            canon_state(s, i).1.dom().contains(v) ==> (#[trigger] canon_state(s, i).1[v])
                < canon_state(s, i).2,
        forall|v1: u8, v2: u8|
            canon_state(s, i).1.dom().contains(v1) && canon_state(s, i).1.dom().contains(v2) && v1
                != v2 ==> (#[trigger] canon_state(s, i).1[v1]) != (#[trigger] canon_state(
                s,
                i,
            ).1[v2]),
        forall|j: int|
            0 <= j < i ==> canon_state(s, i).1.dom().contains(#[trigger] s[j]) && canon_state(
                s,
                i,
            ).0[j] == canon_state(s, i).1[s[j]],
    decreases i,
{
    if i <= 0 {
        assert(canon_state(s, i).1.dom() =~= Set::<u8>::empty());
    } else {
        lemma_canon_out_inj(s, i - 1);
        let prev = canon_state(s, i - 1);
        let x = s[i - 1];
        if prev.1.dom().contains(x) {
        } else {
            assert(canon_state(s, i).1.dom() =~= prev.1.dom().insert(x));
            vstd::set::axiom_set_insert_len(prev.1.dom(), x);
        }
    }
}

/// Equal canonical forms come only from equal color patterns: together
/// with the recoloring law, two states share a canonical form exactly
/// when one is a recoloring of the other, so canonical keys distinguish
/// every genuinely different state.
pub proof fn law_canon_reflects_pattern(s1: Seq<u8>, s2: Seq<u8>)
    requires
        s1.len() <= 255,
        canon_spec(s1) == canon_spec(s2),
    ensures
        same_pattern(s1, s2),
{
    lemma_canon_out_inj(s1, s1.len() as int);
    assert(s1.len() == s2.len()) by {
        lemma_canon_len(s1, s1.len() as int);
        lemma_canon_len(s2, s2.len() as int);
    }
    lemma_canon_out_inj(s2, s2.len() as int);
    let m1 = canon_state(s1, s1.len() as int).1;
    let m2 = canon_state(s2, s2.len() as int).1;
    assert forall|i: int, j: int|
        0 <= i < s1.len() && 0 <= j < s1.len() implies ((s1[i] == s1[j]) <==> (s2[i]
        == s2[j])) by {
        assert(canon_spec(s1)[i] == m1[s1[i]]);
        assert(canon_spec(s1)[j] == m1[s1[j]]);
        assert(canon_spec(s2)[i] == m2[s2[i]]);
        assert(canon_spec(s2)[j] == m2[s2[j]]);
    }
}

/// The vector with the masked slots dropped.
pub open spec fn drop_masked(s: Seq<u8>) -> Seq<u8>
    decreases s.len(),
{
    if s.len() == 0 {
        Seq::empty()
    } else {
        let rest = drop_masked(s.drop_last());
        if s.last() == MASKED {
            rest
        } else {
            rest.push(s.last())
        }
    }
}

spec fn pairs_hold(pairs: Seq<(u8, u8)>, m: Map<u8, u8>) -> bool {
    &&& forall|j: int|
        0 <= j < pairs.len() ==> m.dom().contains((#[trigger] pairs[j]).0) && m[pairs[j].0]
            == pairs[j].1
    &&& forall|v: u8| m.dom().contains(v) ==> exists|j: int| 0 <= j < pairs.len() && (#[trigger] pairs[j]).0 == v
}

fn pairs_lookup(pairs: &Vec<(u8, u8)>, m: Ghost<Map<u8, u8>>, v: u8) -> (r: Option<u8>)
    requires
        pairs_hold(pairs@, m@),
    ensures
        r is Some ==> m@.dom().contains(v) && r->0 == m@[v],
        r is None ==> !m@.dom().contains(v),
{
    let n = pairs.len();
    let mut i: usize = 0;
    while i < n
        invariant
            pairs_hold(pairs@, m@),
            n == pairs@.len(),
            i <= n,
            forall|j: int| 0 <= j < i ==> (#[trigger] pairs@[j]).0 != v,
        decreases n - i,
    {
        if pairs[i].0 == v {
            return Some(pairs[i].1);
        }
        i += 1;
    }
    None
}

/// Relabels a facelet vector so colors are numbered in order of first
/// appearance: the canonical form every whole-puzzle recoloring of the
/// vector shares.
pub fn canonical_colors(data: &Vec<u8>) -> (r: Vec<u8>)
    ensures
        r@ == canon_spec(data@),
{
    let n = data.len();
    let mut out: Vec<u8> = Vec::new();
    let mut pairs: Vec<(u8, u8)> = Vec::new();
    let mut counter: u8 = 0;
    let mut i: usize = 0;
    while i < n
        invariant
            n == data@.len(),
            i <= n,
            out@ == canon_state(data@, i as int).0,
            pairs_hold(pairs@, canon_state(data@, i as int).1),
            counter == canon_state(data@, i as int).2,
        decreases n - i,
    {
        let ghost st = canon_state(data@, i as int);
        let x = data[i];
        match pairs_lookup(&pairs, Ghost(st.1), x) {
            Some(c) => {
                out.push(c);
            },
            None => {
                let ghost oldpairs = pairs@;
                out.push(counter);
                pairs.push((x, counter));
                counter = if counter == 255 {
                    0
                } else {
                    counter + 1
                };
                proof {
                    let st1 = canon_state(data@, i + 1);
                    assert(st1.1 == st.1.insert(x, st.2));
                    assert forall|j: int|
                        0 <= j < pairs@.len() implies st1.1.dom().contains(
                        (#[trigger] pairs@[j]).0,
                    ) && st1.1[pairs@[j].0] == pairs@[j].1 by {
                        if j < oldpairs.len() {
                            assert(pairs@[j] == oldpairs[j]);
                        } else {
                            assert(pairs@[j] == (x, st.2));
                        }
                    }
                    assert forall|v: u8| st1.1.dom().contains(v) implies exists|j: int|
                        0 <= j < pairs@.len() && (#[trigger] pairs@[j]).0 == v by {
                        if v == x {
                            assert(pairs@[pairs@.len() - 1].0 == v);
                        } else {
                            assert(st.1.dom().contains(v));
                            let j = choose|j: int|
                                0 <= j < oldpairs.len() && (#[trigger] oldpairs[j]).0 == v;
                            assert(pairs@[j].0 == v);
                        }
                    }
                }
            },
        }
        i += 1;
    }
    out
}

/// The vector with the masked slots dropped, as the projections persist
/// their states without the sentinel facelets.
pub fn unmasked_facelets(data: &Vec<u8>) -> (r: Vec<u8>)
    ensures
        r@ == drop_masked(data@),
{
    let n = data.len();
    let mut out: Vec<u8> = Vec::new();
    let mut i: usize = 0;
    proof {
        assert(data@.take(0) =~= Seq::<u8>::empty());
    }
    while i < n
        invariant
            n == data@.len(),
            i <= n,
            out@ == drop_masked(data@.take(i as int)),
        decreases n - i,
    {
        proof {
            assert(data@.take(i + 1).drop_last() =~= data@.take(i as int));
            assert(data@.take(i + 1).last() == data@[i as int]);
        }
        let x = data[i];
        if x != MASKED {
            out.push(x);
        }
        i += 1;
    }
    proof {
        assert(data@.take(n as int) =~= data@);
    }
    out
}

/// What base64's standard-alphabet encoding of a byte vector spells.
pub uninterp spec fn base64_of(bytes: Seq<u8>) -> Seq<char>;

/// The key a persisted state table files a state under: the masked
/// slots dropped, the rest canonically recolored and rendered through
/// base64, so one key covers a state and all its recolorings.
pub open spec fn state_key_spec(s: Seq<u8>) -> Seq<char> {
    base64_of(canon_spec(drop_masked(s)))
}

/// Relies on base64::encode: the standard-alphabet encoding with
/// padding, a function of the input bytes alone; it spells four
/// characters per three input bytes, and it is injective, since the
/// encoding decodes back to exactly the input.
#[verifier::external_body]
fn base64_encode(bytes: &Vec<u8>) -> (r: String)
    ensures
        r@ == base64_of(bytes@),
        r@.len() == 4 * ((bytes@.len() + 2) / 3),
        forall|other: Seq<u8>| base64_of(other) == r@ ==> other == bytes@,
{
    base64::encode(bytes)
}

impl Cube {
    /// This state's dedup key: the canonically recolored facelets,
    /// rendered through base64.
    pub fn state_string(&self) -> (r: String)
        ensures
            r@ == base64_of(canon_spec(self@)),
    {
        let canon = canonical_colors(self.data());
        base64_encode(&canon)
    }
}

/// The persisted key of a projected state.  No other canonical form
/// renders to the same key, by the injectivity of the encoding.
pub fn projection_key(c: &Cube) -> (r: String)
    ensures
        r@ == state_key_spec(c@),
        forall|other: Seq<u8>| base64_of(other) == r@ ==> other == canon_spec(drop_masked(c@)),
{
    let kept = unmasked_facelets(c.data());
    let canon = canonical_colors(&kept);
    base64_encode(&canon)
}

/// Whether two states file under one key.  The rendered keys agree
/// exactly when the canonical forms of the unmasked facelets agree, so
/// together with the recoloring laws a shared key means exactly that one
/// state is a recoloring of the other.
pub fn same_projection_key(a: &Cube, b: &Cube) -> (r: bool)
    ensures
        r == (state_key_spec(a@) == state_key_spec(b@)),
        r == (canon_spec(drop_masked(a@)) == canon_spec(drop_masked(b@))),
{
    let ka = projection_key(a);
    let kb = projection_key(b);
    ka == kb
}

/// The persisted key of a corners projection.
pub fn corners_state(c: &Cube) -> (r: String)
    ensures
        r@ == state_key_spec(c@),
{
    projection_key(c)
}

/// The persisted key of an edges projection; the masked slots carry no
/// information for the subset, so the key is formed the same way.
pub fn edges_state(c: &Cube) -> (r: String)
    ensures
        r@ == state_key_spec(c@),
{
    projection_key(c)
}

// ---------------------------------------------------------------------------
// Rank-table keys as text: comma-joined label indices.
// ---------------------------------------------------------------------------

/// The decimal spelling of one label index (labels run from 0 to 12).
pub open spec fn label_chars(v: int) -> Seq<char> {
    if v == 0 {
        "0"@
    } else if v == 1 {
        "1"@
    } else if v == 2 {
        "2"@
    } else if v == 3 {
        "3"@
    } else if v == 4 {
        "4"@
    } else if v == 5 {
        "5"@
    } else if v == 6 {
        "6"@
    } else if v == 7 {
        "7"@
    } else if v == 8 {
        "8"@
    } else if v == 9 {
        "9"@
    } else if v == 10 {
        "10"@
    } else if v == 11 {
        "11"@
    } else {
        "12"@
    }
}

/// Comma-joined decimal label indices.
pub open spec fn labels_string(ls: Seq<int>) -> Seq<char>
    decreases ls.len(),
{
    if ls.len() == 0 {
        Seq::empty()
    } else if ls.len() == 1 {
        label_chars(ls[0])
    } else {
        label_chars(ls[0]) + seq![','] + labels_string(ls.skip(1))
    }
}

fn label_str(v: usize) -> (r: &'static str)
    requires
        v <= 12,
    ensures
        r@ == label_chars(v as int),
{
    if v == 0 {
        "0"
    } else if v == 1 {
        "1"
    } else if v == 2 {
        "2"
    } else if v == 3 {
        "3"
    } else if v == 4 {
        "4"
    } else if v == 5 {
        "5"
    } else if v == 6 {
        "6"
    } else if v == 7 {
        "7"
    } else if v == 8 {
        "8"
    } else if v == 9 {
        "9"
    } else if v == 10 {
        "10"
    } else if v == 11 {
        "11"
    } else {
        "12"
    }
}

/// The label indices of a corner permutation.
pub open spec fn corner_label_indices(perm: Seq<Corner>) -> Seq<int> {
    Seq::new(perm.len(), |i: int| corner_index_spec(perm[i]))
}

/// The label indices of an edge permutation.
pub open spec fn edge_label_indices(perm: Seq<Edge>) -> Seq<int> {
    Seq::new(perm.len(), |i: int| edge_index_spec(perm[i]))
}

/// A corner permutation as the comma-joined text key the
/// permutation-rank files are written with.
pub fn corner_perm_as_string(perm: &Vec<Corner>) -> (r: String)
    ensures
        r@ == labels_string(corner_label_indices(perm@)),
{
    let ghost ls = corner_label_indices(perm@);
    let mut out = String::new();
    let len = perm.len();
    let mut i: usize = 0;
    if len == 0 {
        return out;
    }
    proof {
        assert(ls.skip(0) =~= ls);
        assert(out@ + labels_string(ls) =~= labels_string(ls));
    }
    loop
        invariant
            len == perm@.len(),
            len == ls.len(),
            ls == corner_label_indices(perm@),
            i < len,
            labels_string(ls) == out@ + labels_string(ls.skip(i as int)),
        decreases len - i,
    {
        let ghost rest = ls.skip(i as int);
        proof {
            assert(rest[0] == ls[i as int]);
        }
        out.append(label_str(perm[i].index()));
        if i + 1 == len {
            proof {
                assert(rest.len() == 1);
                assert(labels_string(rest) == label_chars(rest[0]));
            }
            return out;
        }
        out.append(",");
        proof {
            assert(rest.skip(1) =~= ls.skip(i + 1));
            reveal_strlit(",");
            assert(","@ =~= seq![',']);
            assert(labels_string(rest) == label_chars(rest[0]) + seq![','] + labels_string(
                rest.skip(1),
            ));
            assert(labels_string(ls) =~= out@ + labels_string(ls.skip(i + 1)));
        }
        i += 1;
    }
}

/// An edge permutation as the comma-joined text key the
/// permutation-rank files are written with.
pub fn edges_perm_as_string(perm: &Vec<Edge>) -> (r: String)
    ensures
        r@ == labels_string(edge_label_indices(perm@)),
{
    let ghost ls = edge_label_indices(perm@);
    let mut out = String::new();
    let len = perm.len();
    let mut i: usize = 0;
    if len == 0 {
        return out;
    }
    proof {
        assert(ls.skip(0) =~= ls);
        assert(out@ + labels_string(ls) =~= labels_string(ls));
    }
    loop
        invariant
            len == perm@.len(),
            len == ls.len(),
            ls == edge_label_indices(perm@),
            i < len,
            labels_string(ls) == out@ + labels_string(ls.skip(i as int)),
        decreases len - i,
    {
        let ghost rest = ls.skip(i as int);
        proof {
            assert(rest[0] == ls[i as int]);
        }
        out.append(label_str(perm[i].index()));
        if i + 1 == len {
            proof {
                assert(rest.len() == 1);
                assert(labels_string(rest) == label_chars(rest[0]));
            }
            return out;
        }
        out.append(",");
        proof {
            assert(rest.skip(1) =~= ls.skip(i + 1));
            reveal_strlit(",");
            assert(","@ =~= seq![',']);
            assert(labels_string(rest) == label_chars(rest[0]) + seq![','] + labels_string(
                rest.skip(1),
            ));
            assert(labels_string(ls) =~= out@ + labels_string(ls.skip(i + 1)));
        }
        i += 1;
    }
}

} // verus!
