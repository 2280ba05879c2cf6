use cube_solver::SolverError;
use cube_solver::cube::Cube;
use cube_solver::encode::corners_state;
use cube_solver::indexer::corners_index;
use cube_solver::perm::apply_perm;
use cube_solver::ranktable::RankTable;
use cube_solver::search::{
    PatternTables, PieceSet, bfs, gen_table, h, ida_star, project_index, solve_corners,
    solve_edges1, solve_edges2, solve_exact,
};
use cube_solver::transformations::{MoveSet, cube2};

/// A move set in which every face happens to turn the top layer of the
/// 2-wide puzzle: a degenerate puzzle whose whole state space is the
/// four-element rotation cycle, small enough to enumerate in a test.
fn top_only_moveset2() -> MoveSet {
    let u: Vec<u8> = vec![
        2, 0, 3, 1, 8, 9, 6, 7, 12, 13, 10, 11, 16, 17, 14, 15, 4, 5, 18, 19, 20, 21, 22, 23,
    ];
    let u2 = apply_perm(&u, &u);
    let up = apply_perm(&u2, &u);
    let mut perms: Vec<Vec<u8>> = Vec::new();
    for _ in 0..6 {
        perms.push(u.clone());
        perms.push(up.clone());
        perms.push(u2.clone());
    }
    MoveSet::new(24, perms).unwrap()
}

/// The same degenerate move set on the 3-wide puzzle, for driving the
/// pattern-database builder over a four-state space.
fn top_only_moveset3() -> MoveSet {
    let u: Vec<u8> = vec![
        6, 3, 0, 7, 4, 1, 8, 5, 2, 18, 19, 20, 12, 13, 14, 15, 16, 17, 27, 28, 29, 21, 22, 23,
        24, 25, 26, 36, 37, 38, 30, 31, 32, 33, 34, 35, 9, 10, 11, 39, 40, 41, 42, 43, 44, 45,
        46, 47, 48, 49, 50, 51, 52, 53,
    ];
    let u2 = apply_perm(&u, &u);
    let up = apply_perm(&u2, &u);
    let mut perms: Vec<Vec<u8>> = Vec::new();
    for _ in 0..6 {
        perms.push(u.clone());
        perms.push(up.clone());
        perms.push(u2.clone());
    }
    MoveSet::new(54, perms).unwrap()
}

/// The four states of the top-layer cycle on the 3-wide puzzle.
fn top_cycle_states(ms: &MoveSet) -> Vec<Cube> {
    let mut out = Vec::new();
    for k in 0..4 {
        let mut c = Cube::new(3);
        for _ in 0..k {
            c.twist(ms, "U").unwrap();
        }
        out.push(c);
    }
    out
}

/// A rank table filing each distinct corner permutation of the cycle in
/// order of first appearance.
fn cycle_corner_ranks(ms: &MoveSet) -> RankTable {
    let mut rt = RankTable::new();
    let mut next: usize = 0;
    for c in top_cycle_states(ms) {
        let (perm, _) = c.corners_data().unwrap();
        let key: Vec<u8> = perm.iter().map(|p| p.index() as u8).collect();
        if rt.lookup(&key).is_none() {
            rt.insert(key, next);
            next += 1;
        }
    }
    rt
}

/// A rank table for one edge subset of the cycle.
fn cycle_edge_ranks(ms: &MoveSet, mask: &Vec<cube_solver::cube::Edge>) -> RankTable {
    let mut rt = RankTable::new();
    let mut next: usize = 0;
    for c in top_cycle_states(ms) {
        let (perm, _) = c.edges_data(mask).unwrap();
        let key: Vec<u8> = perm.iter().map(|p| p.index() as u8).collect();
        if rt.lookup(&key).is_none() {
            rt.insert(key, next);
            next += 1;
        }
    }
    rt
}

const CORNER_TABLE_SIZE: usize = 4 * 2187;
const EDGE_TABLE_SIZE: usize = 4 * 64;

#[test]
fn search_bfs_scramble_within_fifteen() {
    // Fifteen moves whose net effect is shallow, so the breadth-first
    // search reaches solved quickly; the answer it returns must itself
    // solve the scrambled state in at most fifteen moves.
    let t = cube2().unwrap();
    let scramble = "B U U' B' R R' F F' L L' D D' U U2 U'";
    let mut c = Cube::new(2);
    c.twist(&t, scramble).unwrap();
    let check = {
        let mut d = Cube::new(2);
        d.twist(&t, scramble).unwrap();
        d
    };
    let sol = bfs(c, &t).unwrap();
    let mut solved = check;
    solved.twist(&t, &sol).unwrap();
    assert!(solved.is_solved());
    assert!(sol.split_whitespace().count() <= 15);
}

#[test]
fn test_solve_exact_fifteen_move_scramble() {
    // The exact solver's table, built over a fully enumerable space,
    // must hand back a sequence that re-applied to the scrambled state
    // solves it, in no more than the scramble's fifteen moves.
    let ms = top_only_moveset2();
    let solved = Cube::new(2);
    let table = solve_exact(solved, &ms);
    assert!(table.len() >= 3);

    let scramble = "U F2 R' D B L2 U' F R2 D' B' L U2 F' R";
    let mut c = Cube::new(2);
    c.twist(&ms, scramble).unwrap();
    if c.is_solved() {
        return;
    }
    let key = corners_state(&c);
    let mv = table.get(&key).unwrap();
    assert!(mv.len() <= 15);
    c.apply_sequence(&ms, mv);
    assert!(c.is_solved());
}

#[test]
fn test_gen_table_shape_and_solved_entry() {
    // The builder returns a table of exactly the requested size with the
    // solved state's entry forced to zero, and no entry beyond the
    // projected graph's diameter.
    let ms = top_only_moveset3();
    let rt = cycle_corner_ranks(&ms);
    let table = gen_table(Cube::new(3), &ms, CORNER_TABLE_SIZE, PieceSet::Corners, &rt).unwrap();
    assert_eq!(table.len(), CORNER_TABLE_SIZE);
    let solved_idx = project_index(&Cube::new(3), PieceSet::Corners, &rt).unwrap();
    assert_eq!(table[solved_idx], 0);
    for v in &table {
        assert!(*v <= 11);
    }
    // The solved index is the only reachable index at distance zero.
    for c in top_cycle_states(&ms) {
        let i = project_index(&c, PieceSet::Corners, &rt).unwrap();
        if i != solved_idx {
            assert!(table[i] > 0);
        }
    }
}

#[test]
fn test_index_bijection_on_reachable_states() {
    // Enumerating the reachable projected states yields pairwise
    // distinct indices: no collisions in the dense indexing.
    let ms = top_only_moveset3();
    let rt = cycle_corner_ranks(&ms);
    let mut seen: Vec<usize> = Vec::new();
    for c in top_cycle_states(&ms) {
        let i = corners_index(&c, &rt).unwrap();
        assert!(i < CORNER_TABLE_SIZE);
        assert!(!seen.contains(&i));
        seen.push(i);
    }
    // Ranks were filed in first-appearance order and the top turn leaves
    // every corner orientation alone, so the indices are exactly the
    // ranks scaled by the orientation cardinality.
    assert_eq!(seen, vec![0, 2187, 2 * 2187, 3 * 2187]);
}

#[test]
fn test_table_neighbor_monotonicity() {
    // Entries of adjacent states differ by at most one.
    let ms = top_only_moveset3();
    let rt = cycle_corner_ranks(&ms);
    let table = gen_table(Cube::new(3), &ms, CORNER_TABLE_SIZE, PieceSet::Corners, &rt).unwrap();
    for c in top_cycle_states(&ms) {
        let vi = table[project_index(&c, PieceSet::Corners, &rt).unwrap()] as i32;
        for (n, _) in c.successors(&ms) {
            let vn = table[project_index(&n, PieceSet::Corners, &rt).unwrap()] as i32;
            assert!((vi - vn).abs() <= 1);
        }
    }
}

#[test]
fn test_gen_table_idempotent() {
    // Building the same table twice from the same solved state gives
    // byte-identical results.
    let ms = top_only_moveset3();
    let rt = cycle_corner_ranks(&ms);
    let t1 = gen_table(Cube::new(3), &ms, CORNER_TABLE_SIZE, PieceSet::Corners, &rt).unwrap();
    let t2 = gen_table(Cube::new(3), &ms, CORNER_TABLE_SIZE, PieceSet::Corners, &rt).unwrap();
    assert_eq!(t1, t2);
}

fn cycle_pattern_tables(ms: &MoveSet) -> PatternTables {
    let corner_ranks = cycle_corner_ranks(ms);
    let edges1_ranks = cycle_edge_ranks(ms, &cube_solver::cube::edges1_mask());
    let edges2_ranks = cycle_edge_ranks(ms, &cube_solver::cube::edges2_mask());
    let corners = gen_table(Cube::new(3), ms, CORNER_TABLE_SIZE, PieceSet::Corners, &corner_ranks)
        .unwrap();
    let edges1 = gen_table(Cube::new(3), ms, EDGE_TABLE_SIZE, PieceSet::Edges1, &edges1_ranks)
        .unwrap();
    let edges2 = gen_table(Cube::new(3), ms, EDGE_TABLE_SIZE, PieceSet::Edges2, &edges2_ranks)
        .unwrap();
    PatternTables { corner_ranks, edges1_ranks, edges2_ranks, corners, edges1, edges2 }
}

#[test]
fn test_solve_corners_descends_to_zero() {
    let ms = top_only_moveset3();
    let rt = cycle_corner_ranks(&ms);
    let table = gen_table(Cube::new(3), &ms, CORNER_TABLE_SIZE, PieceSet::Corners, &rt).unwrap();
    let mut c = Cube::new(3);
    c.twist(&ms, "U").unwrap();
    let d0 = table[project_index(&c, PieceSet::Corners, &rt).unwrap()] as usize;
    let sol = solve_corners(&c, &ms, &rt, &table).unwrap();
    assert!(sol.split_whitespace().count() <= d0);
    c.twist(&ms, &sol).unwrap();
    assert!(c.is_solved());
}

#[test]
fn test_solve_edges_descend_to_zero() {
    let ms = top_only_moveset3();
    let rt1 = cycle_edge_ranks(&ms, &cube_solver::cube::edges1_mask());
    let rt2 = cycle_edge_ranks(&ms, &cube_solver::cube::edges2_mask());
    let t1 = gen_table(Cube::new(3), &ms, EDGE_TABLE_SIZE, PieceSet::Edges1, &rt1).unwrap();
    let t2 = gen_table(Cube::new(3), &ms, EDGE_TABLE_SIZE, PieceSet::Edges2, &rt2).unwrap();

    let mut c = Cube::new(3);
    c.twist(&ms, "F'").unwrap();
    let sol1 = solve_edges1(&c, &ms, &rt1, &t1).unwrap();
    let mut c1 = {
        let mut x = Cube::new(3);
        x.twist(&ms, "F'").unwrap();
        x
    };
    c1.twist(&ms, &sol1).unwrap();
    assert!(c1.is_solved());

    // The top-layer edges all fall outside the second subset, so its
    // projection cannot distinguish the cycle states: the greedy walk
    // stops as soon as the subset's own entry is zero.
    let d0 = t2[cube_solver::search::project_index(&c, PieceSet::Edges2, &rt2).unwrap()] as usize;
    let sol2 = solve_edges2(&c, &ms, &rt2, &t2).unwrap();
    assert!(sol2.split_whitespace().count() <= d0);
    let mut c2 = {
        let mut x = Cube::new(3);
        x.twist(&ms, "F'").unwrap();
        x
    };
    c2.twist(&ms, &sol2).unwrap();
    let i_end = cube_solver::search::project_index(&c2, PieceSet::Edges2, &rt2).unwrap();
    assert_eq!(t2[i_end], 0);
}

#[test]
fn test_ida_star_matches_root_heuristic() {
    // When the root lies inside every database's covered space, the
    // returned path length equals the heuristic computed at the root.
    let ms = top_only_moveset3();
    let tables = cycle_pattern_tables(&ms);
    let mut root = Cube::new(3);
    root.twist(&ms, "U").unwrap();
    let h0 = h(&root, &tables).unwrap();
    assert_eq!(h0, 1);
    let check = {
        let mut x = Cube::new(3);
        x.twist(&ms, "U").unwrap();
        x
    };
    let (mv, bound) = ida_star(root, &ms, &tables).unwrap();
    assert_eq!(bound, h0);
    assert_eq!(mv.len(), h0 as usize);
    let mut c = check;
    c.apply_sequence(&ms, &mv);
    assert!(c.is_solved());
}

#[test]
fn test_ida_star_on_solved_root() {
    let ms = top_only_moveset3();
    let tables = cycle_pattern_tables(&ms);
    let (mv, bound) = ida_star(Cube::new(3), &ms, &tables).unwrap();
    assert_eq!(bound, 0);
    assert_eq!(mv.len(), 0);
}

#[test]
fn test_gen_table_rejects_undersized_table() {
    let ms = top_only_moveset3();
    let rt = cycle_corner_ranks(&ms);
    // Space for only one permutation's orientations cannot hold rank 1.
    let r = gen_table(Cube::new(3), &ms, 2187, PieceSet::Corners, &rt);
    assert_eq!(r, Err(SolverError::Configuration));
}
