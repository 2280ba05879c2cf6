use vstd::prelude::*;

use crate::SolverError;
use crate::cube::{
    Cube, corners_classify, edges1_mask_spec, edges2_mask_spec, edges_classify, is_solved_spec,
};
use crate::encode::{projection_key, state_key_spec};
use crate::indexer::{
    corner_key_of, corner_orient_rank_of, corners_index, edge_card_of, edge_key_of,
    edge_orient_rank_of, edges1_index, edges2_index, max_rank_for,
};
use crate::moves::{Move, all_moves, all_moves_spec, format_moves, format_spec, inverse_spec};
use crate::perm::copy_bytes;
use crate::ranktable::RankTable;
use crate::transformations::{
    MoveSet, apply_moves_spec, inverse_seq_spec, law_sequence_inverse, lemma_apply_moves_concat,
    step_spec,
};

verus! {

/// How far two searches may run before giving up; far beyond any state
/// space this library enumerates.
pub const SEARCH_FUEL: u64 = 0xffff_ffff_ffff_ffff;

// ---------------------------------------------------------------------------
// Move-sequence helpers.
// ---------------------------------------------------------------------------

fn extended(v: &Vec<Move>, m: Move) -> (r: Vec<Move>)
    ensures
        r@ == v@.push(m),
{
    let mut r: Vec<Move> = Vec::new();
    let n = v.len();
    let mut i: usize = 0;
    while i < n
        invariant
            n == v@.len(),
            i <= n,
            r@ == v@.take(i as int),
        decreases n - i,
    {
        r.push(v[i]);
        proof {
            assert(v@.take(i as int).push(v@[i as int]) =~= v@.take(i + 1));
        }
        i += 1;
    }
    proof {
        assert(v@.take(n as int) =~= v@);
    }
    r.push(m);
    r
}

/// The sequence that undoes `mv`: the inverses of its moves, last first.
pub fn invert_moves(mv: &Vec<Move>) -> (r: Vec<Move>)
    ensures
        r@ == inverse_seq_spec(mv@),
{
    let n = mv.len();
    let mut r: Vec<Move> = Vec::new();
    let mut i: usize = 0;
    while i < n
        invariant
            n == mv@.len(),
            i <= n,
            r@.len() == i,
            forall|j: int| 0 <= j < i ==> r@[j] == inverse_spec(mv@[n - 1 - j]),
        decreases n - i,
    {
        r.push(mv[n - 1 - i].inverse());
        i += 1;
    }
    proof {
        assert(r@ =~= inverse_seq_spec(mv@));
    }
    r
}

/// Membership in the seen set.  Deduplication only bounds how much work
/// the search repeats; what it returns is pinned by the queue invariants
/// alone, so this carries no contract.
fn string_set_contains(set: &Vec<String>, key: &String) -> bool {
    let n = set.len();
    let mut i: usize = 0;
    while i < n
        invariant
            n == set@.len(),
            i <= n,
        decreases n - i,
    {
        if set[i] == *key {
            return true;
        }
        i += 1;
    }
    false
}

// ---------------------------------------------------------------------------
// Breadth-first search to the solved state.
// ---------------------------------------------------------------------------

/// Searches breadth-first from `start` over the full generator graph and
/// returns a move string that solves it, if one is found before the
/// frontier is exhausted: applying the returned moves to `start` provably
/// yields a solved state, and a start that is already solved is always
/// answered.
pub fn bfs(start: Cube, ms: &MoveSet) -> (r: Option<String>)
    requires
        ms.wf(),
        start@.len() == ms.facelets(),
    ensures
        r matches Some(sol) ==> exists|mv: Seq<Move>|
            sol@ == format_spec(mv) && is_solved_spec(apply_moves_spec(*ms, start@, mv)),
        is_solved_spec(start@) ==> r is Some,
{
    let ghost start_view = start@;
    let mut queue: Vec<(Cube, Vec<Move>)> = Vec::new();
    let mut seen: Vec<String> = Vec::new();
    let empty: Vec<Move> = Vec::new();
    let first = Cube::from_data(copy_bytes(start.data()));
    queue.push((first, empty));
    let mut head: usize = 0;
    let mut fuel: u64 = SEARCH_FUEL;
    while head < queue.len() && fuel > 0
        invariant
            ms.wf(),
            start_view == start@,
            head <= queue@.len(),
            fuel == SEARCH_FUEL - head,
            is_solved_spec(start_view) ==> head == 0 && queue@.len() >= 1 && queue@[0].0@
                == start_view,
            forall|j: int|
                0 <= j < queue@.len() ==> (#[trigger] queue@[j]).0@ == apply_moves_spec(
                    *ms,
                    start_view,
                    queue@[j].1@,
                ) && queue@[j].0@.len() == ms.facelets(),
        decreases fuel,
    {
        if queue[head].0.is_solved() {
            let sol = format_moves(&queue[head].1);
            proof {
                let mv = queue@[head as int].1@;
                assert(queue@[head as int].0@ == apply_moves_spec(*ms, start_view, mv));
                assert(start_view == start@);
                assert(is_solved_spec(queue@[head as int].0@));
                assert(sol@ == format_spec(mv));
                assert(sol@ == format_spec(mv) && is_solved_spec(
                    apply_moves_spec(*ms, start@, mv),
                ));
                assert(exists|w: Seq<Move>|
                    sol@ == format_spec(w) && is_solved_spec(
                        apply_moves_spec(*ms, start@, w),
                    )) by {
                    assert(sol@ == format_spec(mv) && is_solved_spec(
                        apply_moves_spec(*ms, start@, mv),
                    ));
                }
            }
            return Some(sol);
        }
        let succs = queue[head].0.successors(ms);
        let mut k: usize = 0;
        while k < succs.len()
            invariant
                ms.wf(),
                head < queue@.len(),
                succs@.len() == 18,
                forall|j: int|
                    0 <= j < succs@.len() ==> (#[trigger] succs@[j]).0@ == step_spec(
                        *ms,
                        queue@[head as int].0@,
                        succs@[j].1,
                    ) && succs@[j].1 == all_moves_spec()[j] && succs@[j].0@.len()
                        == ms.facelets(),
                forall|j: int|
                    0 <= j < queue@.len() ==> (#[trigger] queue@[j]).0@ == apply_moves_spec(
                        *ms,
                        start_view,
                        queue@[j].1@,
                    ) && queue@[j].0@.len() == ms.facelets(),
            decreases succs@.len() - k,
        {
            let key = succs[k].0.state_string();
            if !string_set_contains(&seen, &key) {
                seen.push(key);
                let mv2 = extended(&queue[head].1, succs[k].1);
                let nd = copy_bytes(succs[k].0.data());
                let nc = Cube::from_data(nd);
                proof {
                    let hm = queue@[head as int].1@;
                    let m = succs@[k as int].1;
                    lemma_apply_moves_concat(*ms, start_view, hm, seq![m]);
                    assert(hm + seq![m] =~= hm.push(m));
                    assert(seq![m].skip(1) =~= Seq::<Move>::empty());
                    assert(apply_moves_spec(
                        *ms,
                        step_spec(*ms, queue@[head as int].0@, m),
                        Seq::<Move>::empty(),
                    ) == step_spec(*ms, queue@[head as int].0@, m));
                    assert(apply_moves_spec(*ms, queue@[head as int].0@, seq![m]) == step_spec(
                        *ms,
                        queue@[head as int].0@,
                        m,
                    ));
                }
                queue.push((nc, mv2));
            }
            k += 1;
        }
        head += 1;
        fuel -= 1;
    }
    None
}

// ---------------------------------------------------------------------------
// The exact solver: a complete state-to-solution table for state spaces
// small enough to enumerate.
// ---------------------------------------------------------------------------

/// One table entry is sound when some state files under its key and the
/// stored move sequence provably solves that state.
pub open spec fn entry_solves(ms: MoveSet, key: Seq<char>, mv: Seq<Move>) -> bool {
    exists|s: Seq<u8>|
        s.len() == ms.facelets() && state_key_spec(s) == key && is_solved_spec(
            apply_moves_spec(ms, s, mv),
        )
}

/// First-match lookup in the solution table's association list.
pub open spec fn table_find(v: Seq<(Seq<char>, Seq<Move>)>, key: Seq<char>) -> Option<Seq<Move>>
    decreases v.len(),
{
    if v.len() == 0 {
        None
    } else if v[0].0 == key {
        Some(v[0].1)
    } else {
        table_find(v.skip(1), key)
    }
}

/// Appending an entry never disturbs what an earlier key finds, and
/// files a fresh key under the appended value.
pub proof fn lemma_table_find_push(v: Seq<(Seq<char>, Seq<Move>)>, e: (Seq<char>, Seq<Move>), key: Seq<char>)
    ensures
        table_find(v, key) is Some ==> table_find(v.push(e), key) == table_find(v, key),
        table_find(v, key) is None && e.0 == key ==> table_find(v.push(e), key) == Some(e.1),
        table_find(v, key) is None && e.0 != key ==> table_find(v.push(e), key) is None,
    decreases v.len(),
{
    if v.len() == 0 {
        assert(v.push(e)[0] == e);
        assert(v.push(e).skip(1) =~= Seq::<(Seq<char>, Seq<Move>)>::empty());
    } else {
        assert(v.push(e)[0] == v[0]);
        assert(v.push(e).skip(1) =~= v.skip(1).push(e));
        lemma_table_find_push(v.skip(1), e, key);
    }
}

/// The table files every immediate neighbor of the start state.
pub open spec fn covers_neighbors(
    v: Seq<(Seq<char>, Seq<Move>)>,
    ms: MoveSet,
    c0: Seq<u8>,
) -> bool {
    forall|k: int|
        0 <= k < 18 ==> table_find(
            v,
            state_key_spec(step_spec(ms, c0, #[trigger] all_moves_spec()[k])),
        ) is Some
}

/// A mapping from state key to a solving move sequence, built outward
/// from the solved state by the exact solver.
pub struct SolutionTable {
    entries: Vec<(String, Vec<Move>)>,
}

impl SolutionTable {
    /// The table's contents as an association list.
    pub closed spec fn entries_view(self) -> Seq<(Seq<char>, Seq<Move>)> {
        self.entries@.map(|i: int, e: (String, Vec<Move>)| (e.0@, e.1@))
    }

    /// The moves stored for a key, if any.
    pub open spec fn find(self, key: Seq<char>) -> Option<Seq<Move>> {
        table_find(self.entries_view(), key)
    }

    /// An empty table.
    pub fn new() -> (r: SolutionTable)
        ensures
            r.entries_view() == Seq::<(Seq<char>, Seq<Move>)>::empty(),
    {
        let r = SolutionTable { entries: Vec::new() };
        proof {
            assert(r.entries_view() =~= Seq::<(Seq<char>, Seq<Move>)>::empty());
        }
        r
    }

    /// How many states the table covers.
    pub fn len(&self) -> (r: usize)
        ensures
            r == self.entries_view().len(),
    {
        self.entries.len()
    }

    fn insert(&mut self, key: String, mv: Vec<Move>)
        ensures
            final(self).entries_view() == old(self).entries_view().push((key@, mv@)),
    {
        let ghost oldview = self.entries_view();
        self.entries.push((key, mv));
        proof {
            assert(self.entries_view() =~= oldview.push((key@, mv@)));
        }
    }

    /// One entry by position, for callers that persist the whole table.
    pub fn entry(&self, i: usize) -> (r: (&String, &Vec<Move>))
        requires
            i < self.entries_view().len(),
        ensures
            r.0@ == self.entries_view()[i as int].0,
            r.1@ == self.entries_view()[i as int].1,
    {
        (&self.entries[i].0, &self.entries[i].1)
    }

    /// Whether the table has an entry for this key.
    pub fn contains_key(&self, key: &String) -> (r: bool)
        ensures
            r == (self.find(key@) is Some),
    {
        self.get(key).is_some()
    }

    /// The stored move sequence for this key, if the table has one.
    pub fn get(&self, key: &String) -> (r: Option<&Vec<Move>>)
        ensures
            match r {
                Some(mv) => self.find(key@) == Some(mv@),
                None => self.find(key@) is None,
            },
    {
        let n = self.entries.len();
        let mut i: usize = 0;
        proof {
            assert(self.entries_view().skip(0) =~= self.entries_view());
        }
        while i < n
            invariant
                n == self.entries@.len(),
                i <= n,
                table_find(self.entries_view(), key@) == table_find(
                    self.entries_view().skip(i as int),
                    key@,
                ),
            decreases n - i,
        {
            let ghost rest = self.entries_view().skip(i as int);
            proof {
                assert(rest[0] == self.entries_view()[i as int]);
                assert(rest.skip(1) =~= self.entries_view().skip(i + 1));
            }
            if self.entries[i].0 == *key {
                return Some(&self.entries[i].1);
            }
            i += 1;
        }
        proof {
            assert(self.entries_view().skip(n as int) =~= Seq::<(Seq<char>, Seq<Move>)>::empty());
        }
        None
    }
}

/// What a lookup returns was stored: a found value belongs to some entry.
pub proof fn lemma_table_find_is_entry(v: Seq<(Seq<char>, Seq<Move>)>, key: Seq<char>)
    ensures
        table_find(v, key) matches Some(mv) ==> exists|e: int|
            0 <= e < v.len() && v[e] == (key, mv),
    decreases v.len(),
{
    if v.len() == 0 {
    } else if v[0].0 == key {
        assert(v[0] == (key, v[0].1));
    } else {
        lemma_table_find_is_entry(v.skip(1), key);
        if table_find(v, key) is Some {
            let mv = table_find(v, key)->0;
            let e = choose|e: int| 0 <= e < v.skip(1).len() && v.skip(1)[e] == (key, mv);
            assert(v[e + 1] == (key, mv));
        }
    }
}

/// Enumerates the state space breadth-first from a solved state and
/// records, for every state key met for the first time, the move
/// sequence that takes that state back to solved (the inverse of the
/// sequence that reached it).  Every entry of the result provably solves
/// a state that files under its key.
pub fn solve_exact(c: Cube, ms: &MoveSet) -> (r: SolutionTable)
    requires
        ms.wf(),
        c@.len() == ms.facelets(),
        is_solved_spec(c@),
    ensures
        forall|e: int|
            0 <= e < r.entries_view().len() ==> entry_solves(
                *ms,
                (#[trigger] r.entries_view()[e]).0,
                r.entries_view()[e].1,
            ),
        covers_neighbors(r.entries_view(), *ms, c@),
{
    let ghost start_view = c@;
    let mut table = SolutionTable::new();
    let mut queue: Vec<(Cube, Vec<Move>)> = Vec::new();
    let empty: Vec<Move> = Vec::new();
    let first = Cube::from_data(copy_bytes(c.data()));
    queue.push((first, empty));
    let mut head: usize = 0;
    let mut fuel: u64 = SEARCH_FUEL;
    while head < queue.len() && fuel > 0
        invariant
            ms.wf(),
            start_view == c@,
            is_solved_spec(start_view),
            start_view.len() == ms.facelets(),
            head <= queue@.len(),
            fuel == SEARCH_FUEL - head,
            queue@.len() >= 1,
            queue@[0].0@ == start_view,
            head >= 1 ==> covers_neighbors(table.entries_view(), *ms, start_view),
            forall|j: int|
                0 <= j < queue@.len() ==> (#[trigger] queue@[j]).0@ == apply_moves_spec(
                    *ms,
                    start_view,
                    queue@[j].1@,
                ) && queue@[j].0@.len() == ms.facelets(),
            forall|e: int|
                0 <= e < table.entries_view().len() ==> entry_solves(
                    *ms,
                    (#[trigger] table.entries_view()[e]).0,
                    table.entries_view()[e].1,
                ),
        decreases fuel,
    {
        let succs = queue[head].0.successors(ms);
        let mut k: usize = 0;
        while k < succs.len()
            invariant
                ms.wf(),
                start_view == c@,
                is_solved_spec(start_view),
                start_view.len() == ms.facelets(),
                head < queue@.len(),
                queue@[0].0@ == start_view,
                succs@.len() == 18,
                forall|j: int|
                    0 <= j < succs@.len() ==> (#[trigger] succs@[j]).0@ == step_spec(
                        *ms,
                        queue@[head as int].0@,
                        succs@[j].1,
                    ) && succs@[j].1 == all_moves_spec()[j] && succs@[j].0@.len()
                        == ms.facelets(),
                k <= 18,
                head == 0 ==> forall|j: int|
                    0 <= j < k ==> table_find(
                        table.entries_view(),
                        state_key_spec(step_spec(*ms, start_view, #[trigger] all_moves_spec()[j])),
                    ) is Some,
                head >= 1 ==> covers_neighbors(table.entries_view(), *ms, start_view),
                forall|j: int|
                    0 <= j < queue@.len() ==> (#[trigger] queue@[j]).0@ == apply_moves_spec(
                        *ms,
                        start_view,
                        queue@[j].1@,
                    ) && queue@[j].0@.len() == ms.facelets(),
                forall|e: int|
                    0 <= e < table.entries_view().len() ==> entry_solves(
                        *ms,
                        (#[trigger] table.entries_view()[e]).0,
                        table.entries_view()[e].1,
                    ),
            decreases succs@.len() - k,
        {
            let key = projection_key(&succs[k].0);
            if !table.contains_key(&key) {
                let mv2 = extended(&queue[head].1, succs[k].1);
                let inv = invert_moves(&mv2);
                let nd = copy_bytes(succs[k].0.data());
                let nc = Cube::from_data(nd);
                proof {
                    let hm = queue@[head as int].1@;
                    let m = succs@[k as int].1;
                    lemma_apply_moves_concat(*ms, start_view, hm, seq![m]);
                    assert(hm + seq![m] =~= hm.push(m));
                    assert(seq![m].skip(1) =~= Seq::<Move>::empty());
                    assert(apply_moves_spec(
                        *ms,
                        step_spec(*ms, queue@[head as int].0@, m),
                        Seq::<Move>::empty(),
                    ) == step_spec(*ms, queue@[head as int].0@, m));
                    assert(apply_moves_spec(*ms, queue@[head as int].0@, seq![m]) == step_spec(
                        *ms,
                        queue@[head as int].0@,
                        m,
                    ));
                    // The new entry solves the very state it was reached at:
                    // applying the inverted sequence undoes the sequence.
                    law_sequence_inverse(*ms, start_view, mv2@);
                    assert(entry_solves(*ms, key@, inv@)) by {
                        let s = nc@;
                        assert(s.len() == ms.facelets() && state_key_spec(s) == key@
                            && is_solved_spec(apply_moves_spec(*ms, s, inv@)));
                    }
                }
                let ghost oldtable = table.entries_view();
                table.insert(key, inv);
                queue.push((nc, mv2));
                proof {
                    assert forall|e: int|
                        0 <= e < table.entries_view().len() implies entry_solves(
                        *ms,
                        (#[trigger] table.entries_view()[e]).0,
                        table.entries_view()[e].1,
                    ) by {
                        if e < oldtable.len() {
                            assert(table.entries_view()[e] == oldtable[e]);
                        }
                    }
                    assert forall|j: int|
                        0 <= j < 18 && table_find(
                            oldtable,
                            state_key_spec(
                                step_spec(*ms, start_view, #[trigger] all_moves_spec()[j]),
                            ),
                        ) is Some implies table_find(
                        table.entries_view(),
                        state_key_spec(step_spec(*ms, start_view, all_moves_spec()[j])),
                    ) is Some by {
                        lemma_table_find_push(
                            oldtable,
                            (key@, inv@),
                            state_key_spec(step_spec(*ms, start_view, all_moves_spec()[j])),
                        );
                    }
                    if head == 0 {
                        lemma_table_find_push(oldtable, (key@, inv@), key@);
                        assert(succs@[k as int].0@ == step_spec(
                            *ms,
                            start_view,
                            all_moves_spec()[k as int],
                        ));
                        assert(table_find(table.entries_view(), key@) is Some);
                    }
                }
            }
            k += 1;
        }
        proof {
            if head == 0 {
                assert(covers_neighbors(table.entries_view(), *ms, start_view));
            }
        }
        head += 1;
        fuel -= 1;
    }
    table
}

// ---------------------------------------------------------------------------
// Projected indexing, shared by the table builder and the solvers.
// ---------------------------------------------------------------------------

/// Which projected sub-state space a table covers.
#[derive(Clone, Copy, Debug, PartialEq, Eq, Structural)]
pub enum PieceSet {
    Corners,
    Edges1,
    Edges2,
}

/// The dense index a state projects to under one piece subset, when its
/// pieces classify, the rank table has its key, and the join fits the
/// machine word.
pub open spec fn projected_index(s: Seq<u8>, set: PieceSet, rt: RankTable) -> Option<int> {
    match set {
        PieceSet::Corners => if corners_classify(s) && rt.find(corner_key_of(s)) is Some
            && rt.find(corner_key_of(s))->0 <= max_rank_for(2187) {
            Some(rt.find(corner_key_of(s))->0 * 2187 + corner_orient_rank_of(s))
        } else {
            None
        },
        PieceSet::Edges1 => if edges_classify(s, edges1_mask_spec()) && rt.find(
            edge_key_of(s, edges1_mask_spec()),
        ) is Some && rt.find(edge_key_of(s, edges1_mask_spec()))->0 <= max_rank_for(
            edge_card_of(s, edges1_mask_spec()),
        ) {
            Some(
                rt.find(edge_key_of(s, edges1_mask_spec()))->0 * edge_card_of(
                    s,
                    edges1_mask_spec(),
                ) + edge_orient_rank_of(s, edges1_mask_spec()),
            )
        } else {
            None
        },
        PieceSet::Edges2 => if edges_classify(s, edges2_mask_spec()) && rt.find(
            edge_key_of(s, edges2_mask_spec()),
        ) is Some && rt.find(edge_key_of(s, edges2_mask_spec()))->0 <= max_rank_for(
            edge_card_of(s, edges2_mask_spec()),
        ) {
            Some(
                rt.find(edge_key_of(s, edges2_mask_spec()))->0 * edge_card_of(
                    s,
                    edges2_mask_spec(),
                ) + edge_orient_rank_of(s, edges2_mask_spec()),
            )
        } else {
            None
        },
    }
}

/// The pieces of one subset all classify on this state.
pub open spec fn set_classifies(s: Seq<u8>, set: PieceSet) -> bool {
    match set {
        PieceSet::Corners => corners_classify(s),
        PieceSet::Edges1 => edges_classify(s, edges1_mask_spec()),
        PieceSet::Edges2 => edges_classify(s, edges2_mask_spec()),
    }
}

/// The projected index of a 3-wide state under one piece subset: a
/// data-integrity error exactly when the pieces fail to classify, a
/// configuration error exactly when they classify but the rank table
/// lacks the key or the rank breaks the machine word.
pub fn project_index(c: &Cube, set: PieceSet, ranks: &RankTable) -> (r: Result<usize, SolverError>)
    requires
        c@.len() == 54,
    ensures
        match r {
            Ok(i) => projected_index(c@, set, *ranks) == Some(i as int),
            Err(e) => projected_index(c@, set, *ranks) is None && (e == SolverError::DataIntegrity
                <==> !set_classifies(c@, set)) && (e == SolverError::DataIntegrity || e
                == SolverError::Configuration),
        },
{
    match set {
        PieceSet::Corners => corners_index(c, ranks),
        PieceSet::Edges1 => edges1_index(c, ranks),
        PieceSet::Edges2 => edges2_index(c, ranks),
    }
}

// ---------------------------------------------------------------------------
// The pattern-database builder.
// ---------------------------------------------------------------------------

/// How many entries of a distance table have been written.
pub open spec fn count_nonzero(t: Seq<u8>) -> int
    decreases t.len(),
{
    if t.len() == 0 {
        0
    } else {
        count_nonzero(t.drop_last()) + (if t.last() == 0 {
            0int
        } else {
            1int
        })
    }
}

proof fn lemma_count_nonzero_le(t: Seq<u8>)
    ensures
        0 <= count_nonzero(t) <= t.len(),
    decreases t.len(),
{
    if t.len() > 0 {
        lemma_count_nonzero_le(t.drop_last());
    }
}

proof fn lemma_count_nonzero_update(t: Seq<u8>, i: int, v: u8)
    requires
        0 <= i < t.len(),
        t[i] == 0,
        v != 0,
    ensures
        count_nonzero(t.update(i, v)) == count_nonzero(t) + 1,
    decreases t.len(),
{
    if i == t.len() - 1 {
        assert(t.update(i, v).drop_last() =~= t.drop_last());
        assert(t.update(i, v).last() == v);
    } else {
        assert(t.update(i, v).drop_last() =~= t.drop_last().update(i, v));
        assert(t.update(i, v).last() == t.last());
        lemma_count_nonzero_update(t.drop_last(), i, v);
    }
}

/// A state the generator graph reaches from `d0` by some move sequence.
pub open spec fn reachable_state(ms: MoveSet, d0: Seq<u8>, s: Seq<u8>) -> bool {
    exists|mv: Seq<Move>| s == apply_moves_spec(ms, d0, mv)
}

/// One way the traversal can fail, witnessed by a reachable state: its
/// pieces fail to classify (a data-integrity error), the rank table
/// fails on its key (a configuration error), or its index falls outside
/// the requested table (a configuration error).
pub open spec fn traversal_fault(
    ms: MoveSet,
    d0: Seq<u8>,
    set: PieceSet,
    rt: RankTable,
    size: int,
    e: SolverError,
) -> bool {
    exists|s: Seq<u8>|
        #[trigger] reachable_state(ms, d0, s) && ((e == SolverError::DataIntegrity
            && !set_classifies(s, set)) || (e == SolverError::Configuration && set_classifies(
            s,
            set,
        ) && projected_index(s, set, rt) is None) || (e == SolverError::Configuration
            && projected_index(s, set, rt) is Some && projected_index(s, set, rt)->0 >= size))
}

/// Builds a pattern database: a breadth-first traversal of the full
/// generator graph from `c`, writing for every projected index met for
/// the first time the distance at which it was met (distances saturate
/// at the byte ceiling, far beyond any real diameter), and forcing the
/// start's own entry back to zero afterwards (the unwritten sentinel is
/// also zero, so the start's first touch is indistinguishable from
/// unvisited).  The result has exactly `result_size` entries, a zero
/// entry at the start's index, and every nonzero entry records a real
/// distance: some move sequence of exactly that length reaches a state
/// of that index.  Failure always carries a reachable witness state.
pub fn gen_table(
    c: Cube,
    ms: &MoveSet,
    result_size: usize,
    set: PieceSet,
    ranks: &RankTable,
) -> (r: Result<Vec<u8>, SolverError>)
    requires
        ms.wf(),
        ms.facelets() == 54,
        c@.len() == 54,
    ensures
        match r {
            Ok(t) => t@.len() == result_size && projected_index(c@, set, *ranks) is Some
                && projected_index(c@, set, *ranks)->0 < result_size && t@[projected_index(
                c@,
                set,
                *ranks,
            )->0] == 0 && forall|i: int|
                0 <= i < result_size && i != projected_index(c@, set, *ranks)->0 && (
                #[trigger] t@[i]) != 0 ==> exists|mv: Seq<Move>|
                    projected_index(apply_moves_spec(*ms, c@, mv), set, *ranks) == Some(i) && (t@[
                        i
                    ] < 255 ==> mv.len() == t@[i]) && (t@[i] == 255 ==> mv.len() >= 255),
            Err(e) => traversal_fault(*ms, c@, set, *ranks, result_size as int, e),
        },
{
    let ghost c_view = c@;
    let solved_index = match project_index(&c, set, ranks) {
        Ok(i) => i,
        Err(e) => {
            proof {
                assert(apply_moves_spec(*ms, c@, Seq::<Move>::empty()) == c@);
                assert(reachable_state(*ms, c@, c@));
            }
            return Err(e);
        },
    };
    if solved_index >= result_size {
        proof {
            assert(apply_moves_spec(*ms, c@, Seq::<Move>::empty()) == c@);
            assert(reachable_state(*ms, c@, c@));
        }
        return Err(SolverError::Configuration);
    }
    let mut table: Vec<u8> = Vec::new();
    let mut z: usize = 0;
    while z < result_size
        invariant
            z <= result_size,
            table@.len() == z,
            count_nonzero(table@) == 0,
            forall|i: int| 0 <= i < z ==> (#[trigger] table@[i]) == 0,
        decreases result_size - z,
    {
        let ghost oldt = table@;
        table.push(0);
        proof {
            assert(table@.drop_last() =~= oldt);
        }
        z += 1;
    }
    let mut queue: Vec<(Cube, u8, Ghost<Seq<Move>>)> = Vec::new();
    let first = Cube::from_data(copy_bytes(c.data()));
    proof {
        assert(apply_moves_spec(*ms, c_view, Seq::<Move>::empty()) == c_view);
    }
    queue.push((first, 0, Ghost(Seq::empty())));
    let mut head: usize = 0;
    while head < queue.len()
        invariant
            ms.wf(),
            ms.facelets() == 54,
            c_view == c@,
            c_view.len() == 54,
            table@.len() == result_size,
            head <= queue@.len(),
            queue@.len() <= 1 + count_nonzero(table@),
            0 <= count_nonzero(table@) <= result_size,
            forall|j: int|
                0 <= j < queue@.len() ==> (#[trigger] queue@[j]).0@ == apply_moves_spec(
                    *ms,
                    c_view,
                    queue@[j].2@,
                ) && queue@[j].0@.len() == 54 && (queue@[j].1 < 255 ==> queue@[j].2@.len()
                    == queue@[j].1) && (queue@[j].1 == 255 ==> queue@[j].2@.len() >= 255),
            forall|i: int|
                0 <= i < result_size && (#[trigger] table@[i]) != 0 ==> exists|mv: Seq<Move>|
                    projected_index(apply_moves_spec(*ms, c_view, mv), set, *ranks) == Some(i) && (
                    table@[i] < 255 ==> mv.len() == table@[i]) && (table@[i] == 255 ==> mv.len()
                        >= 255),
        decreases 1 + result_size - head,
    {
        let dist = queue[head].1;
        let nd: u8 = if dist == 255 {
            255
        } else {
            dist + 1
        };
        let succs = queue[head].0.successors(ms);
        let mut k: usize = 0;
        while k < succs.len()
            invariant
                ms.wf(),
                ms.facelets() == 54,
                c_view == c@,
                c_view.len() == 54,
                succs@.len() == 18,
                forall|j: int|
                    0 <= j < succs@.len() ==> (#[trigger] succs@[j]).0@ == step_spec(
                        *ms,
                        queue@[head as int].0@,
                        succs@[j].1,
                    ) && succs@[j].0@.len() == 54,
                table@.len() == result_size,
                head < queue@.len(),
                queue@.len() <= 1 + count_nonzero(table@),
                0 <= count_nonzero(table@) <= result_size,
                dist == queue@[head as int].1,
                nd == (if dist == 255 { 255u8 } else { (dist + 1) as u8 }),
                forall|j: int|
                    0 <= j < queue@.len() ==> (#[trigger] queue@[j]).0@ == apply_moves_spec(
                        *ms,
                        c_view,
                        queue@[j].2@,
                    ) && queue@[j].0@.len() == 54 && (queue@[j].1 < 255 ==> queue@[j].2@.len()
                        == queue@[j].1) && (queue@[j].1 == 255 ==> queue@[j].2@.len() >= 255),
                forall|i: int|
                    0 <= i < result_size && (#[trigger] table@[i]) != 0 ==> exists|mv: Seq<Move>|
                        projected_index(apply_moves_spec(*ms, c_view, mv), set, *ranks) == Some(i)
                            && (table@[i] < 255 ==> mv.len() == table@[i]) && (table@[i] == 255
                            ==> mv.len() >= 255),
            decreases succs@.len() - k,
        {
            let ghost parent_mv = queue@[head as int].2@;
            let ghost child_mv = parent_mv.push(succs@[k as int].1);
            proof {
                let m = succs@[k as int].1;
                lemma_apply_moves_concat(*ms, c_view, parent_mv, seq![m]);
                assert(parent_mv + seq![m] =~= child_mv);
                assert(seq![m].skip(1) =~= Seq::<Move>::empty());
                assert(apply_moves_spec(
                    *ms,
                    step_spec(*ms, queue@[head as int].0@, m),
                    Seq::<Move>::empty(),
                ) == step_spec(*ms, queue@[head as int].0@, m));
                assert(apply_moves_spec(*ms, queue@[head as int].0@, seq![m]) == step_spec(
                    *ms,
                    queue@[head as int].0@,
                    m,
                ));
                assert(succs@[k as int].0@ == apply_moves_spec(*ms, c_view, child_mv));
            }
            let idx = match project_index(&succs[k].0, set, ranks) {
                Ok(i) => i,
                Err(e) => {
                    proof {
                        assert(reachable_state(*ms, c_view, succs@[k as int].0@));
                    }
                    return Err(e);
                },
            };
            if idx >= result_size {
                proof {
                    assert(reachable_state(*ms, c_view, succs@[k as int].0@));
                }
                return Err(SolverError::Configuration);
            }
            if table[idx] == 0 {
                let ghost oldt = table@;
                table[idx] = nd;
                proof {
                    lemma_count_nonzero_update(oldt, idx as int, nd);
                    lemma_count_nonzero_le(table@);
                    assert(projected_index(apply_moves_spec(*ms, c_view, child_mv), set, *ranks)
                        == Some(idx as int));
                    assert forall|i: int|
                        0 <= i < result_size && (#[trigger] table@[i]) != 0 implies exists|
                        mv: Seq<Move>,
                    |
                        projected_index(apply_moves_spec(*ms, c_view, mv), set, *ranks) == Some(i)
                            && (table@[i] < 255 ==> mv.len() == table@[i]) && (table@[i] == 255
                            ==> mv.len() >= 255) by {
                        if i != idx {
                            assert(table@[i] == oldt[i]);
                        } else {
                            assert(projected_index(
                                apply_moves_spec(*ms, c_view, child_mv),
                                set,
                                *ranks,
                            ) == Some(i) && (table@[i] < 255 ==> child_mv.len() == table@[i]) && (
                            table@[i] == 255 ==> child_mv.len() >= 255));
                        }
                    }
                }
                let nc = Cube::from_data(copy_bytes(succs[k].0.data()));
                queue.push((nc, nd, Ghost(child_mv)));
            }
            k += 1;
        }
        head += 1;
    }
    let ghost pre_fix = table@;
    table[solved_index] = 0;
    proof {
        assert forall|i: int|
            0 <= i < result_size && i != solved_index && (#[trigger] table@[i]) != 0 implies exists|
            mv: Seq<Move>,
        |
            projected_index(apply_moves_spec(*ms, c_view, mv), set, *ranks) == Some(i) && (table@[
                i
            ] < 255 ==> mv.len() == table@[i]) && (table@[i] == 255 ==> mv.len() >= 255) by {
            assert(table@[i] == pre_fix[i]);
        }
    }
    Ok(table)
}

// ---------------------------------------------------------------------------
// Greedy single-subset solving by walking the distance table downhill.
// ---------------------------------------------------------------------------

/// What a successful greedy solve promises: the returned string renders a
/// move sequence that takes the state to one whose table entry is zero,
/// in at most as many moves as the start's own table entry.
pub open spec fn greedy_solves(
    s: Seq<u8>,
    set: PieceSet,
    rt: RankTable,
    table: Seq<u8>,
    ms: MoveSet,
    sol: Seq<char>,
) -> bool {
    exists|mv: Seq<Move>|
        sol == format_spec(mv) && projected_index(s, set, rt) is Some && 0 <= projected_index(
            s,
            set,
            rt,
        )->0 < table.len() && projected_index(apply_moves_spec(ms, s, mv), set, rt) is Some && 0
            <= projected_index(apply_moves_spec(ms, s, mv), set, rt)->0 < table.len() && table[
            projected_index(apply_moves_spec(ms, s, mv), set, rt)->0
        ] == 0 && mv.len() <= table[projected_index(s, set, rt)->0]
}

/// A reachable state whose entry is positive although no generator move
/// reaches a smaller entry: a distance table no breadth-first build can
/// produce, so the greedy walk reports it rather than looping.
pub open spec fn greedy_stuck_at(
    ms: MoveSet,
    s: Seq<u8>,
    set: PieceSet,
    rt: RankTable,
    table: Seq<u8>,
) -> bool {
    &&& projected_index(s, set, rt) is Some
    &&& 0 <= projected_index(s, set, rt)->0 < table.len()
    &&& table[projected_index(s, set, rt)->0] > 0
    &&& forall|k: int|
        0 <= k < 18 ==> {
            let t = projected_index(step_spec(ms, s, #[trigger] all_moves_spec()[k]), set, rt);
            t is Some && 0 <= t->0 < table.len() && table[t->0] >= table[projected_index(
                s,
                set,
                rt,
            )->0]
        }
}

/// One way the greedy walk can fail, witnessed by a reachable state: a
/// classification failure, a rank-table failure, an index outside the
/// table, or a positive entry none of whose neighbors improves on it.
pub open spec fn greedy_fault(
    ms: MoveSet,
    c0: Seq<u8>,
    set: PieceSet,
    rt: RankTable,
    table: Seq<u8>,
    e: SolverError,
) -> bool {
    exists|s: Seq<u8>|
        #[trigger] reachable_state(ms, c0, s) && ((e == SolverError::DataIntegrity
            && !set_classifies(s, set)) || (e == SolverError::Configuration && set_classifies(
            s,
            set,
        ) && projected_index(s, set, rt) is None) || (e == SolverError::Configuration
            && projected_index(s, set, rt) is Some && projected_index(s, set, rt)->0
            >= table.len()) || (e == SolverError::DataIntegrity && greedy_stuck_at(
            ms,
            s,
            set,
            rt,
            table,
        )))
}

fn solve_projection(
    c: &Cube,
    ms: &MoveSet,
    set: PieceSet,
    ranks: &RankTable,
    table: &Vec<u8>,
) -> (r: Result<String, SolverError>)
    requires
        ms.wf(),
        ms.facelets() == 54,
        c@.len() == 54,
    ensures
        match r {
            Ok(sol) => greedy_solves(c@, set, *ranks, table@, *ms, sol@),
            Err(e) => greedy_fault(*ms, c@, set, *ranks, table@, e),
        },
{
    let ghost c_view = c@;
    proof {
        assert(apply_moves_spec(*ms, c@, Seq::<Move>::empty()) == c@);
        assert(reachable_state(*ms, c@, c@));
    }
    let i0 = match project_index(c, set, ranks) {
        Ok(i) => i,
        Err(e) => {
            return Err(e);
        },
    };
    if i0 >= table.len() {
        return Err(SolverError::Configuration);
    }
    let ghost d0 = table@[i0 as int];
    let mut dist: u8 = table[i0];
    let mut cur = Cube::from_data(copy_bytes(c.data()));
    let mut moves: Vec<Move> = Vec::new();
    proof {
        assert(moves@ =~= Seq::<Move>::empty());
    }
    while dist > 0
        invariant
            ms.wf(),
            ms.facelets() == 54,
            c_view == c@,
            table@.len() <= usize::MAX,
            reachable_state(*ms, c_view, c_view),
            d0 == table@[projected_index(c_view, set, *ranks)->0],
            projected_index(c_view, set, *ranks) is Some,
            0 <= projected_index(c_view, set, *ranks)->0 < table@.len(),
            cur@ == apply_moves_spec(*ms, c_view, moves@),
            cur@.len() == 54,
            projected_index(cur@, set, *ranks) is Some,
            0 <= projected_index(cur@, set, *ranks)->0 < table@.len(),
            table@[projected_index(cur@, set, *ranks)->0] == dist,
            moves@.len() + dist <= d0,
        decreases dist,
    {
        let succs = cur.successors(ms);
        let mut bv: u8 = 255;
        let mut bk: usize = 0;
        let mut have: bool = false;
        let mut k: usize = 0;
        while k < succs.len()
            invariant
                ms.wf(),
                ms.facelets() == 54,
                c_view == c@,
                cur@ == apply_moves_spec(*ms, c_view, moves@),
                cur@.len() == 54,
                succs@.len() == 18,
                forall|j: int|
                    0 <= j < succs@.len() ==> (#[trigger] succs@[j]).0@ == step_spec(
                        *ms,
                        cur@,
                        all_moves_spec()[j],
                    ) && succs@[j].1 == all_moves_spec()[j] && succs@[j].0@.len() == 54,
                table@.len() <= usize::MAX,
                k <= 18,
                forall|j: int|
                    0 <= j < k ==> projected_index(
                        (#[trigger] succs@[j]).0@,
                        set,
                        *ranks,
                    ) is Some && 0 <= projected_index(succs@[j].0@, set, *ranks)->0 < table@.len()
                        && table@[projected_index(succs@[j].0@, set, *ranks)->0] >= bv,
                have ==> bk < k && projected_index(succs@[bk as int].0@, set, *ranks) is Some && 0
                    <= projected_index(succs@[bk as int].0@, set, *ranks)->0 < table@.len()
                    && table@[projected_index(succs@[bk as int].0@, set, *ranks)->0] == bv,
                !have ==> k == 0,
            decreases succs@.len() - k,
        {
            let ghost child_mv = moves@.push(succs@[k as int].1);
            proof {
                let m = succs@[k as int].1;
                lemma_apply_moves_concat(*ms, c_view, moves@, seq![m]);
                assert(moves@ + seq![m] =~= child_mv);
                assert(seq![m].skip(1) =~= Seq::<Move>::empty());
                assert(apply_moves_spec(*ms, step_spec(*ms, cur@, m), Seq::<Move>::empty())
                    == step_spec(*ms, cur@, m));
                assert(apply_moves_spec(*ms, cur@, seq![m]) == step_spec(*ms, cur@, m));
                assert(succs@[k as int].0@ == apply_moves_spec(*ms, c_view, child_mv));
            }
            let idx = match project_index(&succs[k].0, set, ranks) {
                Ok(i) => i,
                Err(e) => {
                    proof {
                        assert(reachable_state(*ms, c_view, succs@[k as int].0@));
                    }
                    return Err(e);
                },
            };
            if idx >= table.len() {
                proof {
                    assert(reachable_state(*ms, c_view, succs@[k as int].0@));
                }
                return Err(SolverError::Configuration);
            }
            let v = table[idx];
            if !have || v < bv {
                bv = v;
                bk = k;
                have = true;
            }
            k += 1;
        }
        if bv >= dist {
            proof {
                assert(reachable_state(*ms, c_view, cur@));
                assert(greedy_stuck_at(*ms, cur@, set, *ranks, table@)) by {
                    assert forall|k2: int|
                        0 <= k2 < 18 implies {
                        let t = projected_index(
                            step_spec(*ms, cur@, #[trigger] all_moves_spec()[k2]),
                            set,
                            *ranks,
                        );
                        t is Some && 0 <= t->0 < table@.len() && table@[t->0] >= table@[
                            projected_index(cur@, set, *ranks)->0
                        ]
                    } by {
                        assert(succs@[k2].0@ == step_spec(*ms, cur@, all_moves_spec()[k2]));
                        assert(table@[projected_index(succs@[k2].0@, set, *ranks)->0] >= bv);
                    }
                }
            }
            return Err(SolverError::DataIntegrity);
        }
        let m = succs[bk].1;
        let ghost pre = cur@;
        cur.apply_move(ms, m);
        proof {
            assert(cur@ == succs@[bk as int].0@);
            lemma_apply_moves_concat(*ms, c_view, moves@, seq![m]);
            assert(moves@ + seq![m] =~= moves@.push(m));
            assert(seq![m].skip(1) =~= Seq::<Move>::empty());
            assert(apply_moves_spec(*ms, step_spec(*ms, pre, m), Seq::<Move>::empty())
                == step_spec(*ms, pre, m));
            assert(apply_moves_spec(*ms, pre, seq![m]) == step_spec(*ms, pre, m));
        }
        moves.push(m);
        dist = bv;
    }
    let sol = format_moves(&moves);
    proof {
        let mv = moves@;
        assert(greedy_solves(c@, set, *ranks, table@, *ms, sol@)) by {
            assert(sol@ == format_spec(mv) && projected_index(c@, set, *ranks) is Some && 0
                <= projected_index(c@, set, *ranks)->0 < table@.len() && projected_index(
                apply_moves_spec(*ms, c@, mv),
                set,
                *ranks,
            ) is Some && 0 <= projected_index(apply_moves_spec(*ms, c@, mv), set, *ranks)->0
                < table@.len() && table@[projected_index(apply_moves_spec(*ms, c@, mv), set, *ranks)->0]
                == 0 && mv.len() <= table@[projected_index(c@, set, *ranks)->0]);
        }
    }
    Ok(sol)
}

/// Walks the corner distance table downhill until the corner entry is
/// zero; the result provably reaches a zero-entry state in at most the
/// start entry's number of moves.
pub fn solve_corners(c: &Cube, ms: &MoveSet, ranks: &RankTable, table: &Vec<u8>) -> (r: Result<
    String,
    SolverError,
>)
    requires
        ms.wf(),
        ms.facelets() == 54,
        c@.len() == 54,
    ensures
        match r {
            Ok(sol) => greedy_solves(c@, PieceSet::Corners, *ranks, table@, *ms, sol@),
            Err(e) => greedy_fault(*ms, c@, PieceSet::Corners, *ranks, table@, e),
        },
{
    solve_projection(c, ms, PieceSet::Corners, ranks, table)
}

/// Walks the first edge subset's distance table downhill.
pub fn solve_edges1(c: &Cube, ms: &MoveSet, ranks: &RankTable, table: &Vec<u8>) -> (r: Result<
    String,
    SolverError,
>)
    requires
        ms.wf(),
        ms.facelets() == 54,
        c@.len() == 54,
    ensures
        match r {
            Ok(sol) => greedy_solves(c@, PieceSet::Edges1, *ranks, table@, *ms, sol@),
            Err(e) => greedy_fault(*ms, c@, PieceSet::Edges1, *ranks, table@, e),
        },
{
    solve_projection(c, ms, PieceSet::Edges1, ranks, table)
}

/// Walks the second edge subset's distance table downhill.
pub fn solve_edges2(c: &Cube, ms: &MoveSet, ranks: &RankTable, table: &Vec<u8>) -> (r: Result<
    String,
    SolverError,
>)
    requires
        ms.wf(),
        ms.facelets() == 54,
        c@.len() == 54,
    ensures
        match r {
            Ok(sol) => greedy_solves(c@, PieceSet::Edges2, *ranks, table@, *ms, sol@),
            Err(e) => greedy_fault(*ms, c@, PieceSet::Edges2, *ranks, table@, e),
        },
{
    solve_projection(c, ms, PieceSet::Edges2, ranks, table)
}

// ---------------------------------------------------------------------------
// The IDA* solver.
// ---------------------------------------------------------------------------

/// The three pattern databases and their rank tables, loaded once and
/// then only read.
pub struct PatternTables {
    pub corner_ranks: RankTable,
    pub edges1_ranks: RankTable,
    pub edges2_ranks: RankTable,
    pub corners: Vec<u8>,
    pub edges1: Vec<u8>,
    pub edges2: Vec<u8>,
}

pub open spec fn max3(a: int, b: int, c: int) -> int {
    if a >= b && a >= c {
        a
    } else if b >= c {
        b
    } else {
        c
    }
}

/// The admissible heuristic: the largest of the three databases' entries
/// for a state.  The maximum (never the sum) keeps it a lower bound,
/// since the databases overlap in the true distance they each bound.
pub open spec fn h_spec(s: Seq<u8>, t: PatternTables) -> Option<int> {
    if projected_index(s, PieceSet::Corners, t.corner_ranks) is Some && 0 <= projected_index(
        s,
        PieceSet::Corners,
        t.corner_ranks,
    )->0 < t.corners@.len() && projected_index(s, PieceSet::Edges1, t.edges1_ranks) is Some && 0
        <= projected_index(s, PieceSet::Edges1, t.edges1_ranks)->0 < t.edges1@.len()
        && projected_index(s, PieceSet::Edges2, t.edges2_ranks) is Some && 0 <= projected_index(
        s,
        PieceSet::Edges2,
        t.edges2_ranks,
    )->0 < t.edges2@.len() {
        Some(
            max3(
                t.corners@[projected_index(s, PieceSet::Corners, t.corner_ranks)->0] as int,
                t.edges1@[projected_index(s, PieceSet::Edges1, t.edges1_ranks)->0] as int,
                t.edges2@[projected_index(s, PieceSet::Edges2, t.edges2_ranks)->0] as int,
            ),
        )
    } else {
        None
    }
}

/// The heuristic value of a state: the maximum of its three database
/// entries.
pub fn h(c: &Cube, t: &PatternTables) -> (r: Result<u8, SolverError>)
    requires
        c@.len() == 54,
    ensures
        match r {
            Ok(v) => h_spec(c@, *t) == Some(v as int),
            Err(e) => h_spec(c@, *t) is None && (e == SolverError::DataIntegrity || e
                == SolverError::Configuration),
        },
{
    let i1 = match project_index(c, PieceSet::Corners, &t.corner_ranks) {
        Ok(i) => i,
        Err(e) => {
            return Err(e);
        },
    };
    if i1 >= t.corners.len() {
        return Err(SolverError::Configuration);
    }
    let i2 = match project_index(c, PieceSet::Edges1, &t.edges1_ranks) {
        Ok(i) => i,
        Err(e) => {
            return Err(e);
        },
    };
    if i2 >= t.edges1.len() {
        return Err(SolverError::Configuration);
    }
    let i3 = match project_index(c, PieceSet::Edges2, &t.edges2_ranks) {
        Ok(i) => i,
        Err(e) => {
            return Err(e);
        },
    };
    if i3 >= t.edges2.len() {
        return Err(SolverError::Configuration);
    }
    let h1 = t.corners[i1];
    let h2 = t.edges1[i2];
    let h3 = t.edges2[i3];
    let m = if h1 >= h2 && h1 >= h3 {
        h1
    } else if h2 >= h3 {
        h2
    } else {
        h3
    };
    Ok(m)
}

/// One way the deepening search can fail, witnessed by an explored
/// state: some reachable state has no heuristic value, or some explored
/// node's path cost plus heuristic already exceeds what a byte-valued
/// bound can hold.
pub open spec fn ida_fault(ms: MoveSet, root: Seq<u8>, t: PatternTables, e: SolverError) -> bool {
    ||| ((e == SolverError::DataIntegrity || e == SolverError::Configuration) && exists|s: Seq<u8>|
        #[trigger] reachable_state(ms, root, s) && h_spec(s, t) is None)
    ||| (e == SolverError::Configuration && exists|mv: Seq<Move>|
        h_spec(#[trigger] apply_moves_spec(ms, root, mv), t) is Some && mv.len() + h_spec(
            apply_moves_spec(ms, root, mv),
            t,
        )->0 > 255)
}

/// What one bounded depth-first pass reports: a solution on the path
/// stack, or the smallest pruned cost to widen the bound to.
enum SearchResult {
    Found,
    NewBound(u32),
}

/// One bounded depth-first pass of IDA*: explores below the current node
/// while the path cost plus heuristic stays within the bound, extending
/// the path stack in place and restoring it on backtrack.
fn ida_search(
    cur: &mut Cube,
    moves: &mut Vec<Move>,
    ms: &MoveSet,
    t: &PatternTables,
    g: u32,
    bound: u8,
    root: Ghost<Seq<u8>>,
) -> (r: Result<SearchResult, SolverError>)
    requires
        ms.wf(),
        ms.facelets() == 54,
        old(cur)@.len() == 54,
        old(cur)@ == apply_moves_spec(*ms, root@, old(moves)@),
        old(moves)@.len() == g,
        g <= bound + 1,
    ensures
        match r {
            Ok(SearchResult::Found) => final(cur)@ == apply_moves_spec(
                *ms,
                root@,
                final(moves)@,
            ) && is_solved_spec(final(cur)@) && final(moves)@.len() <= bound,
            Ok(SearchResult::NewBound(b)) => final(cur)@ == old(cur)@ && final(moves)@ == old(
                moves,
            )@ && b > bound && exists|mv: Seq<Move>|
                h_spec(#[trigger] apply_moves_spec(*ms, root@, mv), *t) is Some && b == mv.len()
                    + h_spec(apply_moves_spec(*ms, root@, mv), *t)->0,
            Err(e) => ida_fault(*ms, root@, *t, e),
        },
    decreases bound + 2 - g,
{
    let hv = match h(cur, t) {
        Ok(v) => v,
        Err(e) => {
            proof {
                assert(reachable_state(*ms, root@, cur@)) by {
                    assert(cur@ == apply_moves_spec(*ms, root@, moves@));
                }
            }
            return Err(e);
        },
    };
    let f = g + (hv as u32);
    if f > bound as u32 {
        proof {
            assert(h_spec(apply_moves_spec(*ms, root@, moves@), *t) is Some && f == moves@.len()
                + h_spec(apply_moves_spec(*ms, root@, moves@), *t)->0);
        }
        return Ok(SearchResult::NewBound(f));
    }
    if cur.is_solved() {
        return Ok(SearchResult::Found);
    }
    let mvs = all_moves();
    let mut minb: u32 = u32::MAX;
    let mut k: usize = 0;
    while k < 18
        invariant
            ms.wf(),
            ms.facelets() == 54,
            mvs@ == all_moves_spec(),
            mvs@.len() == 18,
            k <= 18,
            g <= bound,
            moves@.len() == g,
            cur@ == old(cur)@,
            moves@ == old(moves)@,
            cur@ == apply_moves_spec(*ms, root@, moves@),
            cur@.len() == 54,
            minb > bound,
            k == 0 ==> minb == u32::MAX,
            k >= 1 ==> exists|mv: Seq<Move>|
                h_spec(#[trigger] apply_moves_spec(*ms, root@, mv), *t) is Some && minb == mv.len()
                    + h_spec(apply_moves_spec(*ms, root@, mv), *t)->0,
        decreases 18 - k,
    {
        let m = mvs[k];
        let ghost pre = cur@;
        cur.apply_move(ms, m);
        moves.push(m);
        proof {
            lemma_apply_moves_concat(*ms, root@, old(moves)@, seq![m]);
            assert(old(moves)@ + seq![m] =~= old(moves)@.push(m));
            assert(seq![m].skip(1) =~= Seq::<Move>::empty());
            assert(apply_moves_spec(*ms, step_spec(*ms, pre, m), Seq::<Move>::empty())
                == step_spec(*ms, pre, m));
            assert(apply_moves_spec(*ms, pre, seq![m]) == step_spec(*ms, pre, m));
        }
        let res = match ida_search(cur, moves, ms, t, g + 1, bound, root) {
            Ok(res) => res,
            Err(e) => {
                return Err(e);
            },
        };
        match res {
            SearchResult::Found => {
                return Ok(SearchResult::Found);
            },
            SearchResult::NewBound(b) => {
                proof {
                    if b >= minb && k == 0 {
                        assert(b == minb);
                    }
                }
                if b < minb {
                    minb = b;
                }
            },
        }
        moves.pop();
        let ghost mid = cur@;
        cur.apply_move(ms, m.inverse());
        proof {
            assert(old(moves)@.push(m).drop_last() =~= old(moves)@);
            crate::transformations::law_move_inverse(*ms, pre, m);
        }
        k += 1;
    }
    Ok(SearchResult::NewBound(minb))
}

/// Iterative-deepening A*: repeats the bounded depth-first pass with the
/// heuristic of the root as the first bound, widening the bound to the
/// smallest pruned cost after each failed pass.  A returned solution
/// provably solves the root, within the final bound, which never fell
/// below the root's heuristic; failure always carries a witness — an
/// explored state without a heuristic value, or an explored node whose
/// cost already exceeds the byte-valued bound ceiling.
pub fn ida_star(root: Cube, ms: &MoveSet, t: &PatternTables) -> (r: Result<
    (Vec<Move>, u8),
    SolverError,
>)
    requires
        ms.wf(),
        ms.facelets() == 54,
        root@.len() == 54,
    ensures
        match r {
            Ok(sol) => is_solved_spec(apply_moves_spec(*ms, root@, sol.0@)) && sol.0@.len()
                <= sol.1 && h_spec(root@, *t) is Some && h_spec(root@, *t)->0 <= sol.1,
            Err(e) => ida_fault(*ms, root@, *t, e),
        },
{
    let h0 = match h(&root, t) {
        Ok(v) => v,
        Err(e) => {
            proof {
                assert(apply_moves_spec(*ms, root@, Seq::<Move>::empty()) == root@);
                assert(reachable_state(*ms, root@, root@));
            }
            return Err(e);
        },
    };
    let mut bound: u8 = h0;
    let mut cur = Cube::from_data(copy_bytes(root.data()));
    let mut moves: Vec<Move> = Vec::new();
    let ghost root_view = root@;
    loop
        invariant
            ms.wf(),
            ms.facelets() == 54,
            root_view == root@,
            root_view.len() == 54,
            h_spec(root_view, *t) == Some(h0 as int),
            h0 <= bound,
            cur@ == root_view,
            moves@.len() == 0,
            moves@ == Seq::<Move>::empty(),
        decreases 255 - bound,
    {
        let res = match ida_search(&mut cur, &mut moves, ms, t, 0, bound, Ghost(root_view)) {
            Ok(res) => res,
            Err(e) => {
                return Err(e);
            },
        };
        match res {
            SearchResult::Found => {
                return Ok((moves, bound));
            },
            SearchResult::NewBound(b) => {
                if b > 255 {
                    return Err(SolverError::Configuration);
                }
                bound = b as u8;
            },
        }
    }
}

} // verus!
