use vstd::prelude::*;

use crate::SolverError;
use crate::cube::{
    Corner, CornerOrientation, Cube, Edge, EdgeOrientation, corner_index_spec, corner_label_at,
    corner_orient_at, corner_orient_index_spec, corners_classify, edge_index_spec, edge_label_at,
    edge_orient_at, edge_orient_index_spec, edges1_mask, edges1_mask_spec, edges2_mask,
    edges2_mask_spec, edges_classify,
};
use crate::ranktable::RankTable;

verus! {

/// The Combinatorial Indexer: it joins a state's piece permutation rank
/// (looked up in an injected permutation-rank table) with a mixed-radix
/// encoding of the piece orientations into one dense index,
/// `rank * orientation_cardinality + orientation_rank`.

pub open spec fn pow3(k: int) -> int
    decreases k,
{
    if k <= 0 {
        1
    } else {
        3 * pow3(k - 1)
    }
}

/// The base-3 number the first `k` corner orientations spell, least
/// significant digit first.
pub open spec fn corner_orient_rank(o: Seq<CornerOrientation>, k: int) -> int
    decreases k,
{
    if k <= 0 {
        0
    } else {
        corner_orient_rank(o, k - 1) + corner_orient_index_spec(o[k - 1]) * pow3(k - 1)
    }
}

/// The concrete digit capacities the corner encoding uses.
proof fn lemma_pow3_vals()
    ensures
        pow3(6) == 729,
        pow3(7) == 2187,
{
    reveal_with_fuel(pow3, 8);
}

pub proof fn lemma_pow3_pos(k: int)
    ensures
        pow3(k) >= 1,
    decreases k,
{
    if k > 0 {
        lemma_pow3_pos(k - 1);
    }
}

/// The encoded orientations always fall below the digit capacity.
pub proof fn lemma_corner_orient_rank_bound(o: Seq<CornerOrientation>, k: int)
    ensures
        0 <= corner_orient_rank(o, k) < pow3(k),
    decreases k,
{
    if k <= 0 {
    } else {
        lemma_corner_orient_rank_bound(o, k - 1);
        lemma_pow3_pos(k - 1);
        assert(corner_orient_index_spec(o[k - 1]) <= 2);
        assert(corner_orient_index_spec(o[k - 1]) * pow3(k - 1) <= 2 * pow3(k - 1))
            by (nonlinear_arith)
            requires
                corner_orient_index_spec(o[k - 1]) <= 2,
                pow3(k - 1) >= 1,
        ;
        assert(corner_orient_index_spec(o[k - 1]) * pow3(k - 1) >= 0) by (nonlinear_arith)
            requires
                corner_orient_index_spec(o[k - 1]) >= 0,
                pow3(k - 1) >= 1,
        ;
    }
}

/// Two orientation words with the same base-3 encoding agree digit by
/// digit: the mixed-radix encoding is injective.
pub proof fn lemma_corner_orient_rank_unique(
    o1: Seq<CornerOrientation>,
    o2: Seq<CornerOrientation>,
    k: int,
)
    requires
        corner_orient_rank(o1, k) == corner_orient_rank(o2, k),
    ensures
        forall|j: int| 0 <= j < k ==> o1[j] == o2[j],
    decreases k,
{
    if k <= 0 {
    } else {
        let d1 = corner_orient_index_spec(o1[k - 1]);
        let d2 = corner_orient_index_spec(o2[k - 1]);
        let r1 = corner_orient_rank(o1, k - 1);
        let r2 = corner_orient_rank(o2, k - 1);
        lemma_corner_orient_rank_bound(o1, k - 1);
        lemma_corner_orient_rank_bound(o2, k - 1);
        lemma_pow3_pos(k - 1);
        vstd::arithmetic::div_mod::lemma_fundamental_div_mod_converse(
            r1 + d1 * pow3(k - 1),
            pow3(k - 1),
            d1,
            r1,
        );
        vstd::arithmetic::div_mod::lemma_fundamental_div_mod_converse(
            r2 + d2 * pow3(k - 1),
            pow3(k - 1),
            d2,
            r2,
        );
        assert(d1 == d2 && r1 == r2);
        assert(o1[k - 1] == o2[k - 1]);
        lemma_corner_orient_rank_unique(o1, o2, k - 1);
    }
}

/// Joining rank and orientation into `rank * 2187 + orientation` loses
/// nothing: equal corner indices mean equal ranks and equal encoded
/// orientation digits.  With an injective rank table this makes the
/// whole corner index a bijection on classifiable states.
pub proof fn law_corner_index_injective(
    r1: int,
    o1: Seq<CornerOrientation>,
    r2: int,
    o2: Seq<CornerOrientation>,
)
    requires
        r1 >= 0,
        r2 >= 0,
        r1 * 2187 + corner_orient_rank(o1, 7) == r2 * 2187 + corner_orient_rank(o2, 7),
    ensures
        r1 == r2,
        forall|j: int| 0 <= j < 7 ==> o1[j] == o2[j],
{
    lemma_corner_orient_rank_bound(o1, 7);
    lemma_corner_orient_rank_bound(o2, 7);
    lemma_pow3_vals();
    vstd::arithmetic::div_mod::lemma_fundamental_div_mod_converse(
        r1 * 2187 + corner_orient_rank(o1, 7),
        2187,
        r1,
        corner_orient_rank(o1, 7),
    );
    vstd::arithmetic::div_mod::lemma_fundamental_div_mod_converse(
        r2 * 2187 + corner_orient_rank(o2, 7),
        2187,
        r2,
        corner_orient_rank(o2, 7),
    );
    lemma_corner_orient_rank_unique(o1, o2, 7);
}

/// No two keys share a rank: what a correctly authored permutation-rank
/// table provides.
pub open spec fn rank_table_injective(rt: RankTable) -> bool {
    forall|k1: Seq<u8>, k2: Seq<u8>|
        (#[trigger] rt.find(k1)) is Some && (#[trigger] rt.find(k2)) is Some && rt.find(k1)
            == rt.find(k2) ==> k1 == k2
}

/// The Combinatorial Indexer is a bijection on classifiable states: with
/// an injective rank table, two states with the same corner index have
/// the same corner labels at every position and the same orientation at
/// every encoded position, so distinct projected states never collide.
pub proof fn law_corner_indexer_injective(s1: Seq<u8>, s2: Seq<u8>, rt: RankTable)
    requires
        rank_table_injective(rt),
        rt.find(corner_key_of(s1)) is Some,
        rt.find(corner_key_of(s2)) is Some,
        rt.find(corner_key_of(s1))->0 * 2187 + corner_orient_rank_of(s1) == rt.find(
            corner_key_of(s2),
        )->0 * 2187 + corner_orient_rank_of(s2),
    ensures
        corner_key_of(s1) == corner_key_of(s2),
        forall|j: int|
            0 <= j < 8 ==> (#[trigger] corner_labels_of(s1)[j]) == corner_labels_of(s2)[j],
        forall|j: int|
            0 <= j < 7 ==> (#[trigger] corner_orients_of(s1)[j]) == corner_orients_of(s2)[j],
{
    let r1 = rt.find(corner_key_of(s1))->0;
    let r2 = rt.find(corner_key_of(s2))->0;
    law_corner_index_injective(
        r1 as int,
        corner_orients_of(s1),
        r2 as int,
        corner_orients_of(s2),
    );
    assert(rt.find(corner_key_of(s1)) == rt.find(corner_key_of(s2)));
    assert(corner_key_of(s1) == corner_key_of(s2));
    assert forall|j: int|
        0 <= j < 8 implies (#[trigger] corner_labels_of(s1)[j]) == corner_labels_of(s2)[j] by {
        assert(corner_key_of(s1)[j] == corner_key_of(s2)[j]);
        assert(corner_index_spec(corner_labels_of(s1)[j]) == corner_index_spec(
            corner_labels_of(s2)[j],
        ));
    }
}

/// The corner labels of a classifiable state, in canonical piece order.
pub open spec fn corner_labels_of(s: Seq<u8>) -> Seq<Corner> {
    Seq::new(8, |k: int| corner_label_at(s, k)->0)
}

/// The corner orientations of a classifiable state.
pub open spec fn corner_orients_of(s: Seq<u8>) -> Seq<CornerOrientation> {
    Seq::new(8, |k: int| corner_orient_at(s, k)->0)
}

/// The rank-table key of a state's corner permutation: the label indices
/// in piece order.
pub open spec fn corner_key_of(s: Seq<u8>) -> Seq<u8> {
    Seq::new(8, |k: int| corner_index_spec(corner_labels_of(s)[k]) as u8)
}

/// The encoded corner orientation of a state: base-3 digits of the first
/// seven corners only, since the eighth orientation is determined by the
/// other seven.
pub open spec fn corner_orient_rank_of(s: Seq<u8>) -> int {
    corner_orient_rank(corner_orients_of(s), 7)
}

/// The largest rank that can be joined with any orientation below `card`
/// without exceeding the machine word.
pub open spec fn max_rank_for(card: int) -> int {
    (usize::MAX - (card - 1)) / card
}

/// The dense corner index of a state: the permutation rank looked up in
/// the injected table, times `3^7`, plus the orientation encoding.
/// Classification failure is a data-integrity error; a key the table
/// lacks, or a rank too large for the machine word, is a configuration
/// error.
pub fn corners_index(c: &Cube, ranks: &RankTable) -> (r: Result<usize, SolverError>)
    requires
        c@.len() == 54,
    ensures
        match r {
            Ok(idx) => corners_classify(c@) && ranks.find(corner_key_of(c@)) is Some && ranks.find(
                corner_key_of(c@),
            )->0 <= max_rank_for(2187) && idx == ranks.find(corner_key_of(c@))->0 * 2187
                + corner_orient_rank_of(c@),
            Err(e) => (e == SolverError::DataIntegrity && !corners_classify(c@)) || (e
                == SolverError::Configuration && corners_classify(c@) && (ranks.find(
                corner_key_of(c@),
            ) is None || ranks.find(corner_key_of(c@))->0 > max_rank_for(2187))),
        },
{
    let (perm, orient) = match c.corners_data() {
        Ok(po) => po,
        Err(e) => {
            return Err(e);
        },
    };
    let mut key: Vec<u8> = Vec::new();
    let mut i: usize = 0;
    while i < 8
        invariant
            corners_classify(c@),
            perm@.len() == 8,
            forall|k: int| 0 <= k < 8 ==> Some(#[trigger] perm@[k]) == corner_label_at(c@, k),
            i <= 8,
            key@.len() == i,
            forall|k: int| 0 <= k < i ==> key@[k] == corner_key_of(c@)[k],
        decreases 8 - i,
    {
        key.push(perm[i].index() as u8);
        i += 1;
    }
    proof {
        assert(key@ =~= corner_key_of(c@));
    }
    let rk = match ranks.lookup(&key) {
        Some(rk) => rk,
        None => {
            return Err(SolverError::Configuration);
        },
    };
    let mut orank: usize = 0;
    let mut p3: usize = 1;
    let mut k: usize = 0;
    proof {
        lemma_pow3_pos(7);
    }
    while k < 7
        invariant
            corners_classify(c@),
            orient@.len() == 8,
            forall|j: int| 0 <= j < 8 ==> Some(#[trigger] orient@[j]) == corner_orient_at(c@, j),
            k <= 7,
            p3 == pow3(k as int),
            p3 <= 2187,
            orank == corner_orient_rank(corner_orients_of(c@), k as int),
            orank < p3,
        decreases 7 - k,
    {
        let d = orient[k].index();
        proof {
            assert(corner_orients_of(c@)[k as int] == orient@[k as int]);
            lemma_pow3_pos(k as int);
            lemma_pow3_vals();
            lemma_pow3_increases(k as int, 6);
            assert(pow3(k + 1) == 3 * pow3(k as int));
            lemma_pow3_increases(k + 1, 7);
            assert(d * p3 <= 2 * p3) by (nonlinear_arith)
                requires
                    0 <= d <= 2,
                    p3 >= 0,
            ;
        }
        orank = orank + d * p3;
        p3 = p3 * 3;
        k += 1;
    }
    if rk > (usize::MAX - 2186) / 2187 {
        return Err(SolverError::Configuration);
    }
    proof {
        lemma_pow3_vals();
        lemma_join_fits(rk as int, orank as int, 2187);
    }
    Ok(rk * 2187 + orank)
}

// ---------------------------------------------------------------------------
// The edge index: base-2 digits over the non-ignored edges only, in
// position order, so an ignored edge contributes no digit.
// ---------------------------------------------------------------------------

/// The orientation cardinality of the first `k` edge positions: one
/// factor of two per non-ignored edge.
pub open spec fn edge_orient_card(lab: Seq<Edge>, k: int) -> int
    decreases k,
{
    if k <= 0 {
        1
    } else {
        edge_orient_card(lab, k - 1) * (if lab[k - 1] == Edge::Ignored {
            1int
        } else {
            2int
        })
    }
}

/// The mixed-radix number the first `k` edge orientations spell, the
/// ignored edges contributing nothing.
pub open spec fn edge_orient_rank(lab: Seq<Edge>, o: Seq<EdgeOrientation>, k: int) -> int
    decreases k,
{
    if k <= 0 {
        0
    } else {
        edge_orient_rank(lab, o, k - 1) + (if lab[k - 1] == Edge::Ignored {
            0int
        } else {
            edge_orient_index_spec(o[k - 1]) * edge_orient_card(lab, k - 1)
        })
    }
}

pub proof fn lemma_edge_card_pos(lab: Seq<Edge>, k: int)
    ensures
        edge_orient_card(lab, k) >= 1,
    decreases k,
{
    if k > 0 {
        lemma_edge_card_pos(lab, k - 1);
        assert(edge_orient_card(lab, k) >= edge_orient_card(lab, k - 1)) by (nonlinear_arith)
            requires
                edge_orient_card(lab, k) == edge_orient_card(lab, k - 1) * (if lab[k - 1]
                    == Edge::Ignored {
                    1int
                } else {
                    2int
                }),
                edge_orient_card(lab, k - 1) >= 1,
        ;
    }
}

/// The cardinality never exceeds one factor of two per position.
pub proof fn lemma_edge_card_le(lab: Seq<Edge>, k: int)
    requires
        k >= 0,
    ensures
        edge_orient_card(lab, k) <= pow3(k),
    decreases k,
{
    if k > 0 {
        lemma_edge_card_le(lab, k - 1);
        lemma_edge_card_pos(lab, k - 1);
        lemma_pow3_pos(k - 1);
        assert(edge_orient_card(lab, k) <= 2 * edge_orient_card(lab, k - 1)) by (nonlinear_arith)
            requires
                edge_orient_card(lab, k) == edge_orient_card(lab, k - 1) * (if lab[k - 1]
                    == Edge::Ignored {
                    1int
                } else {
                    2int
                }),
                edge_orient_card(lab, k - 1) >= 1,
        ;
        assert(2 * edge_orient_card(lab, k - 1) <= 3 * pow3(k - 1)) by (nonlinear_arith)
            requires
                edge_orient_card(lab, k - 1) <= pow3(k - 1),
                edge_orient_card(lab, k - 1) >= 1,
        ;
    }
}

/// The encoded edge orientations always fall below the cardinality.
pub proof fn lemma_edge_orient_rank_bound(lab: Seq<Edge>, o: Seq<EdgeOrientation>, k: int)
    ensures
        0 <= edge_orient_rank(lab, o, k) < edge_orient_card(lab, k),
    decreases k,
{
    if k <= 0 {
    } else {
        lemma_edge_orient_rank_bound(lab, o, k - 1);
        lemma_edge_card_pos(lab, k - 1);
        if lab[k - 1] == Edge::Ignored {
        } else {
            let d = edge_orient_index_spec(o[k - 1]);
            assert(0 <= d <= 1);
            assert(0 <= d * edge_orient_card(lab, k - 1) <= edge_orient_card(lab, k - 1))
                by (nonlinear_arith)
                requires
                    0 <= d <= 1,
                    edge_orient_card(lab, k - 1) >= 1,
            ;
            assert(edge_orient_card(lab, k) == 2 * edge_orient_card(lab, k - 1));
        }
    }
}

/// For one label word, two orientation words with the same encoding agree
/// on every non-ignored position: the edge encoding drops nothing but the
/// ignored edges' orientations.
pub proof fn lemma_edge_orient_rank_unique(
    lab: Seq<Edge>,
    o1: Seq<EdgeOrientation>,
    o2: Seq<EdgeOrientation>,
    k: int,
)
    requires
        edge_orient_rank(lab, o1, k) == edge_orient_rank(lab, o2, k),
    ensures
        forall|j: int| 0 <= j < k && lab[j] != Edge::Ignored ==> o1[j] == o2[j],
    decreases k,
{
    if k <= 0 {
    } else {
        lemma_edge_orient_rank_bound(lab, o1, k - 1);
        lemma_edge_orient_rank_bound(lab, o2, k - 1);
        lemma_edge_card_pos(lab, k - 1);
        if lab[k - 1] == Edge::Ignored {
            lemma_edge_orient_rank_unique(lab, o1, o2, k - 1);
        } else {
            let d1 = edge_orient_index_spec(o1[k - 1]);
            let d2 = edge_orient_index_spec(o2[k - 1]);
            let r1 = edge_orient_rank(lab, o1, k - 1);
            let r2 = edge_orient_rank(lab, o2, k - 1);
            vstd::arithmetic::div_mod::lemma_fundamental_div_mod_converse(
                r1 + d1 * edge_orient_card(lab, k - 1),
                edge_orient_card(lab, k - 1),
                d1,
                r1,
            );
            vstd::arithmetic::div_mod::lemma_fundamental_div_mod_converse(
                r2 + d2 * edge_orient_card(lab, k - 1),
                edge_orient_card(lab, k - 1),
                d2,
                r2,
            );
            assert(d1 == d2 && r1 == r2);
            assert(o1[k - 1] == o2[k - 1]);
            lemma_edge_orient_rank_unique(lab, o1, o2, k - 1);
        }
    }
}

/// Joining an edge rank and its orientation encoding loses nothing: for
/// one label word, equal indices mean equal ranks and equal orientations
/// on every non-ignored edge.
pub proof fn law_edge_index_injective(
    lab: Seq<Edge>,
    r1: int,
    o1: Seq<EdgeOrientation>,
    r2: int,
    o2: Seq<EdgeOrientation>,
)
    requires
        r1 >= 0,
        r2 >= 0,
        r1 * edge_orient_card(lab, 12) + edge_orient_rank(lab, o1, 12) == r2 * edge_orient_card(
            lab,
            12,
        ) + edge_orient_rank(lab, o2, 12),
    ensures
        r1 == r2,
        forall|j: int| 0 <= j < 12 && lab[j] != Edge::Ignored ==> o1[j] == o2[j],
{
    lemma_edge_orient_rank_bound(lab, o1, 12);
    lemma_edge_orient_rank_bound(lab, o2, 12);
    lemma_edge_card_pos(lab, 12);
    vstd::arithmetic::div_mod::lemma_fundamental_div_mod_converse(
        r1 * edge_orient_card(lab, 12) + edge_orient_rank(lab, o1, 12),
        edge_orient_card(lab, 12),
        r1,
        edge_orient_rank(lab, o1, 12),
    );
    vstd::arithmetic::div_mod::lemma_fundamental_div_mod_converse(
        r2 * edge_orient_card(lab, 12) + edge_orient_rank(lab, o2, 12),
        edge_orient_card(lab, 12),
        r2,
        edge_orient_rank(lab, o2, 12),
    );
    lemma_edge_orient_rank_unique(lab, o1, o2, 12);
}

/// The masked edge labels of a classifiable state, in canonical order.
pub open spec fn edge_labels_of(s: Seq<u8>, mask: Seq<Edge>) -> Seq<Edge> {
    Seq::new(12, |k: int| edge_label_at(s, k, mask)->0)
}

/// The edge orientations of a classifiable state.
pub open spec fn edge_orients_of(s: Seq<u8>) -> Seq<EdgeOrientation> {
    Seq::new(12, |k: int| edge_orient_at(s, k)->0)
}

/// The rank-table key of a state's masked edge permutation.
pub open spec fn edge_key_of(s: Seq<u8>, mask: Seq<Edge>) -> Seq<u8> {
    Seq::new(12, |k: int| edge_index_spec(edge_labels_of(s, mask)[k]) as u8)
}

/// The orientation cardinality of a state's masked edges.
pub open spec fn edge_card_of(s: Seq<u8>, mask: Seq<Edge>) -> int {
    edge_orient_card(edge_labels_of(s, mask), 12)
}

/// The encoded orientation of a state's masked edges.
pub open spec fn edge_orient_rank_of(s: Seq<u8>, mask: Seq<Edge>) -> int {
    edge_orient_rank(edge_labels_of(s, mask), edge_orients_of(s), 12)
}

/// The edge indexer is a bijection on classifiable states of one subset:
/// with an injective rank table, two states of equal orientation
/// cardinality (every reachable state of a six-edge subset has
/// cardinality `2^6`) and the same edge index have the same masked edge
/// labels everywhere and the same orientation at every non-ignored
/// position.
pub proof fn law_edge_indexer_injective(s1: Seq<u8>, s2: Seq<u8>, mask: Seq<Edge>, rt: RankTable)
    requires
        rank_table_injective(rt),
        rt.find(edge_key_of(s1, mask)) is Some,
        rt.find(edge_key_of(s2, mask)) is Some,
        edge_card_of(s1, mask) == edge_card_of(s2, mask),
        rt.find(edge_key_of(s1, mask))->0 * edge_card_of(s1, mask) + edge_orient_rank_of(s1, mask)
            == rt.find(edge_key_of(s2, mask))->0 * edge_card_of(s2, mask) + edge_orient_rank_of(
            s2,
            mask,
        ),
    ensures
        edge_key_of(s1, mask) == edge_key_of(s2, mask),
        forall|j: int|
            0 <= j < 12 ==> (#[trigger] edge_labels_of(s1, mask)[j]) == edge_labels_of(
                s2,
                mask,
            )[j],
        forall|j: int|
            0 <= j < 12 && edge_labels_of(s1, mask)[j] != Edge::Ignored ==> (
            #[trigger] edge_orients_of(s1)[j]) == edge_orients_of(s2)[j],
{
    let lab1 = edge_labels_of(s1, mask);
    let lab2 = edge_labels_of(s2, mask);
    let c = edge_card_of(s1, mask);
    let r1 = rt.find(edge_key_of(s1, mask))->0;
    let r2 = rt.find(edge_key_of(s2, mask))->0;
    lemma_edge_orient_rank_bound(lab1, edge_orients_of(s1), 12);
    lemma_edge_orient_rank_bound(lab2, edge_orients_of(s2), 12);
    lemma_edge_card_pos(lab1, 12);
    vstd::arithmetic::div_mod::lemma_fundamental_div_mod_converse(
        r1 * c + edge_orient_rank_of(s1, mask),
        c,
        r1 as int,
        edge_orient_rank_of(s1, mask),
    );
    vstd::arithmetic::div_mod::lemma_fundamental_div_mod_converse(
        r2 * c + edge_orient_rank_of(s2, mask),
        c,
        r2 as int,
        edge_orient_rank_of(s2, mask),
    );
    assert(r1 == r2);
    assert(rt.find(edge_key_of(s1, mask)) == rt.find(edge_key_of(s2, mask)));
    assert(edge_key_of(s1, mask) == edge_key_of(s2, mask));
    assert forall|j: int|
        0 <= j < 12 implies (#[trigger] edge_labels_of(s1, mask)[j]) == edge_labels_of(
        s2,
        mask,
    )[j] by {
        assert(edge_key_of(s1, mask)[j] == edge_key_of(s2, mask)[j]);
        assert(edge_index_spec(lab1[j]) == edge_index_spec(lab2[j]));
    }
    assert(lab1 =~= lab2);
    lemma_edge_orient_rank_unique(lab1, edge_orients_of(s1), edge_orients_of(s2), 12);
}

/// The dense edge index of a state under a mask: the permutation rank
/// looked up in the injected table, times the orientation cardinality of
/// the non-ignored edges, plus the orientation encoding.
fn edges_index(c: &Cube, mask: &Vec<Edge>, ranks: &RankTable) -> (r: Result<usize, SolverError>)
    requires
        c@.len() == 54,
    ensures
        match r {
            Ok(idx) => edges_classify(c@, mask@) && ranks.find(edge_key_of(c@, mask@)) is Some
                && ranks.find(edge_key_of(c@, mask@))->0 <= max_rank_for(edge_card_of(c@, mask@))
                && idx == ranks.find(edge_key_of(c@, mask@))->0 * edge_card_of(c@, mask@)
                + edge_orient_rank_of(c@, mask@),
            Err(e) => (e == SolverError::DataIntegrity && !edges_classify(c@, mask@)) || (e
                == SolverError::Configuration && edges_classify(c@, mask@) && (ranks.find(
                edge_key_of(c@, mask@),
            ) is None || ranks.find(edge_key_of(c@, mask@))->0 > max_rank_for(
                edge_card_of(c@, mask@),
            ))),
        },
{
    let (perm, orient) = match c.edges_data(mask) {
        Ok(po) => po,
        Err(e) => {
            return Err(e);
        },
    };
    let mut key: Vec<u8> = Vec::new();
    let mut i: usize = 0;
    while i < 12
        invariant
            edges_classify(c@, mask@),
            perm@.len() == 12,
            forall|k: int| 0 <= k < 12 ==> Some(#[trigger] perm@[k]) == edge_label_at(c@, k, mask@),
            i <= 12,
            key@.len() == i,
            forall|k: int| 0 <= k < i ==> key@[k] == edge_key_of(c@, mask@)[k],
        decreases 12 - i,
    {
        key.push(perm[i].index() as u8);
        i += 1;
    }
    proof {
        assert(key@ =~= edge_key_of(c@, mask@));
    }
    let rk = match ranks.lookup(&key) {
        Some(rk) => rk,
        None => {
            return Err(SolverError::Configuration);
        },
    };
    let ghost lab = edge_labels_of(c@, mask@);
    let mut orank: usize = 0;
    let mut p2: usize = 1;
    let mut k: usize = 0;
    while k < 12
        invariant
            edges_classify(c@, mask@),
            perm@.len() == 12,
            orient@.len() == 12,
            lab == edge_labels_of(c@, mask@),
            forall|j: int| 0 <= j < 12 ==> Some(#[trigger] perm@[j]) == edge_label_at(c@, j, mask@),
            forall|j: int| 0 <= j < 12 ==> Some(#[trigger] orient@[j]) == edge_orient_at(c@, j),
            k <= 12,
            p2 == edge_orient_card(lab, k as int),
            p2 <= 531441,
            orank == edge_orient_rank(lab, edge_orients_of(c@), k as int),
            orank < p2,
        decreases 12 - k,
    {
        proof {
            assert(lab[k as int] == perm@[k as int]);
            assert(edge_orients_of(c@)[k as int] == orient@[k as int]);
            lemma_edge_card_le(lab, k + 1);
            lemma_pow3_vals();
            lemma_pow3_increases(k + 1, 12);
            assert(pow3(12) == 531441) by {
                reveal_with_fuel(pow3, 13);
            }
        }
        if perm[k].index() != 12 {
            proof {
                assert(perm@[k as int] != Edge::Ignored);
                assert(edge_orient_card(lab, k + 1) == 2 * edge_orient_card(lab, k as int));
            }
            let d = orient[k].index();
            proof {
                assert(d * p2 <= p2) by (nonlinear_arith)
                    requires
                        0 <= d <= 1,
                        p2 >= 0,
                ;
                assert(d * p2 >= 0) by (nonlinear_arith)
                    requires
                        0 <= d,
                        p2 >= 0,
                ;
            }
            orank = orank + d * p2;
            p2 = p2 * 2;
        } else {
            proof {
                assert(perm@[k as int] == Edge::Ignored);
                assert(edge_orient_card(lab, k + 1) == edge_orient_card(lab, k as int) * 1);
            }
        }
        k += 1;
    }
    if rk > (usize::MAX - (p2 - 1)) / p2 {
        return Err(SolverError::Configuration);
    }
    proof {
        lemma_join_fits(rk as int, orank as int, p2 as int);
        assert(rk * (p2 as int) <= usize::MAX - (orank as int));
    }
    Ok(rk * p2 + orank)
}

/// The dense index of a state's first edge subset.
pub fn edges1_index(c: &Cube, ranks: &RankTable) -> (r: Result<usize, SolverError>)
    requires
        c@.len() == 54,
    ensures
        match r {
            Ok(idx) => edges_classify(c@, edges1_mask_spec()) && ranks.find(
                edge_key_of(c@, edges1_mask_spec()),
            ) is Some && ranks.find(edge_key_of(c@, edges1_mask_spec()))->0 <= max_rank_for(
                edge_card_of(c@, edges1_mask_spec()),
            ) && idx == ranks.find(edge_key_of(c@, edges1_mask_spec()))->0 * edge_card_of(
                c@,
                edges1_mask_spec(),
            ) + edge_orient_rank_of(c@, edges1_mask_spec()),
            Err(e) => (e == SolverError::DataIntegrity && !edges_classify(
                c@,
                edges1_mask_spec(),
            )) || (e == SolverError::Configuration && edges_classify(c@, edges1_mask_spec()) && (
            ranks.find(edge_key_of(c@, edges1_mask_spec())) is None || ranks.find(
                edge_key_of(c@, edges1_mask_spec()),
            )->0 > max_rank_for(edge_card_of(c@, edges1_mask_spec())))),
        },
{
    let mask = edges1_mask();
    edges_index(c, &mask, ranks)
}

/// The dense index of a state's second edge subset.
pub fn edges2_index(c: &Cube, ranks: &RankTable) -> (r: Result<usize, SolverError>)
    requires
        c@.len() == 54,
    ensures
        match r {
            Ok(idx) => edges_classify(c@, edges2_mask_spec()) && ranks.find(
                edge_key_of(c@, edges2_mask_spec()),
            ) is Some && ranks.find(edge_key_of(c@, edges2_mask_spec()))->0 <= max_rank_for(
                edge_card_of(c@, edges2_mask_spec()),
            ) && idx == ranks.find(edge_key_of(c@, edges2_mask_spec()))->0 * edge_card_of(
                c@,
                edges2_mask_spec(),
            ) + edge_orient_rank_of(c@, edges2_mask_spec()),
            Err(e) => (e == SolverError::DataIntegrity && !edges_classify(
                c@,
                edges2_mask_spec(),
            )) || (e == SolverError::Configuration && edges_classify(c@, edges2_mask_spec()) && (
            ranks.find(edge_key_of(c@, edges2_mask_spec())) is None || ranks.find(
                edge_key_of(c@, edges2_mask_spec()),
            )->0 > max_rank_for(edge_card_of(c@, edges2_mask_spec())))),
        },
{
    let mask = edges2_mask();
    edges_index(c, &mask, ranks)
}

/// Powers of three grow with the exponent.
proof fn lemma_pow3_increases(a: int, b: int)
    requires
        a <= b,
    ensures
        pow3(a) <= pow3(b),
    decreases b - a,
{
    if a < b {
        lemma_pow3_increases(a, b - 1);
        lemma_pow3_pos(b - 1);
    }
}

/// A rank at most `max_rank_for(card)` joined with an orientation below
/// `card` stays within the machine word.
proof fn lemma_join_fits(rk: int, orank: int, card: int)
    requires
        card >= 1,
        0 <= orank < card,
        0 <= rk <= max_rank_for(card),
    ensures
        rk * card + orank <= usize::MAX,
{
    let m = usize::MAX - (card - 1);
    vstd::arithmetic::div_mod::lemma_fundamental_div_mod(m as int, card);
    let q = m as int / card;
    assert(q * card <= m);
    assert(rk * card <= q * card) by (nonlinear_arith)
        requires
            rk <= q,
            card >= 1,
    ;
}

} // verus!
