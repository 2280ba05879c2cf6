use cube_solver::SolverError;
use cube_solver::cube::{Corner, CornerOrientation, Cube, Edge, EdgeOrientation};
use cube_solver::cube::{edges1_mask, edges2_mask};
use cube_solver::encode::{
    canonical_colors, corner_perm_as_string, corners_state, edges_perm_as_string,
};
use cube_solver::moves::{Move, all_moves, format_moves, parse_moves};
use cube_solver::ranktable::RankTable;
use cube_solver::transformations::{MoveSet, cube2, cube3};

fn cube_it_works_scramble() -> &'static str {
    "B U2 B R2 D F2 B' U' L2"
}

#[test]
fn cube_it_works() {
    let t = cube2().unwrap();
    let mut c = Cube::new(2);
    c.twist(&t, cube_it_works_scramble()).unwrap();
    println!("{:?}", c.data());
}

#[test]
fn test_cube3() {
    let t = cube3().unwrap();
    let mut c = Cube::new(3);
    c.twist(&t, "U F' R2 U2 R B' R2 B R U L2 R2 F' L R2 F L' R F' B2 R B L' R' B")
        .unwrap();
    println!("{:?}", c.data());
}

#[test]
fn test_corners_data() {
    let _t = cube3().unwrap();
    let c = Cube::new(3);
    let data = c.corners_data().unwrap();
    println!("{:?}, {:?}", data.0, data.1);
    // The solved state's corner permutation is the identity; with a rank
    // table that files the identity at rank zero, the whole index is zero.
    let mut ranks = RankTable::new();
    let key: Vec<u8> = data.0.iter().map(|p| p.index() as u8).collect();
    assert_eq!(key, vec![0, 1, 2, 3, 4, 5, 6, 7]);
    ranks.insert(key, 0);
    let idx = cube_solver::indexer::corners_index(&c, &ranks).unwrap();
    println!("{}", idx);
    assert_eq!(idx, 0);
}

#[test]
fn test_edges_data() {
    let t = cube3().unwrap();
    let mut c = Cube::new(3);
    c.twist(&t, "B' R D2 U2 R' L U D' F2 D' F2 L F2 L2 B U2 R' F' L' B2 D' F L2")
        .unwrap();
    // File this state's own edge permutation at rank zero, so the index
    // is exactly its orientation encoding.
    let mask = edges2_mask();
    let (perm, orient) = c.edges_data(&mask).unwrap();
    let key: Vec<u8> = perm.iter().map(|p| p.index() as u8).collect();
    let mut ranks = RankTable::new();
    ranks.insert(key, 0);
    let idx = cube_solver::indexer::edges2_index(&c, &ranks).unwrap();
    println!("{}", idx);
    // With the permutation rank pinned at zero, the index is exactly the
    // base-2 orientation encoding over the non-ignored edges.
    let mut expected: usize = 0;
    let mut weight: usize = 1;
    for k in 0..12 {
        if perm[k] != Edge::Ignored {
            expected += orient[k].index() * weight;
            weight *= 2;
        }
    }
    assert_eq!(idx, expected);
}

#[test]
fn test_is_solved() {
    let t = cube3().unwrap();
    let mut c = Cube::new(3);
    c.twist(&t, "U U'").unwrap();
    println!("cube is solved: {}", c.is_solved());
    assert!(c.is_solved());
}

#[test]
fn lib_it_works() {
    let mut c = cube_solver::Cube::new(2).unwrap();
    c.twist("D").unwrap();
    println!("{:?}", c.data());
}

// Every quarter turn applied four times, and every half turn applied
// twice, returns any state to where it was.
#[test]
fn test_generator_order() {
    let t = cube3().unwrap();
    let mut base = Cube::new(3);
    base.twist(&t, "R U F' D2 L B").unwrap();
    for m in all_moves() {
        let mut c = Cube::new(3);
        c.twist(&t, "R U F' D2 L B").unwrap();
        let reps = if m.index() % 3 == 2 { 2 } else { 4 };
        for _ in 0..reps {
            c.apply_move(&t, m);
        }
        assert_eq!(c.data(), base.data());
    }
}

// Every move followed by its inverse is the identity.
#[test]
fn test_move_inverse() {
    let t2 = cube2().unwrap();
    let t3 = cube3().unwrap();
    for m in all_moves() {
        let mut c = Cube::new(3);
        c.twist(&t3, "F2 R D'").unwrap();
        let mut d = Cube::new(3);
        d.twist(&t3, "F2 R D'").unwrap();
        c.apply_move(&t3, m);
        c.apply_move(&t3, m.inverse());
        assert_eq!(c.data(), d.data());

        let mut e = Cube::new(2);
        let f = Cube::new(2);
        e.apply_move(&t2, m);
        e.apply_move(&t2, m.inverse());
        assert_eq!(e.data(), f.data());
    }
}

#[test]
fn test_parse_format_roundtrip() {
    let s = "B' R D2 U2 R' L U D' F2 D' F2 L F2 L2 B";
    let mv = parse_moves(s).unwrap();
    assert_eq!(mv.len(), 15);
    assert_eq!(format_moves(&mv), s);
    assert_eq!(mv[0], Move::BPrime);
    assert_eq!(mv[14], Move::B);
}

#[test]
fn test_invalid_move_rejected() {
    assert_eq!(parse_moves("U X"), Err(SolverError::InvalidMove));
    assert_eq!(parse_moves("U2'"), Err(SolverError::InvalidMove));
    let t = cube2().unwrap();
    let mut c = Cube::new(2);
    let before = c.data().clone();
    assert_eq!(c.twist(&t, "U Q2"), Err(SolverError::InvalidMove));
    assert_eq!(c.data(), &before);
}

#[test]
fn test_unsupported_width_rejected() {
    assert!(matches!(cube_solver::Cube::new(3), Err(SolverError::Configuration)));
}

#[test]
fn test_state_string_solved() {
    let c = Cube::new(2);
    assert_eq!(c.state_string(), "AAAAAAEBAQECAgICAwMDAwQEBAQFBQUF");
    let c3 = Cube::new(3);
    assert_eq!(
        c3.state_string(),
        "AAAAAAAAAAAAAQEBAQEBAQEBAgICAgICAgICAwMDAwMDAwMDBAQEBAQEBAQEBQUFBQUFBQUF"
    );
}

#[test]
fn test_state_string_recoloring_invariant() {
    // Two states that differ only by a whole-puzzle recoloring share one
    // canonical key.
    let a = vec![3u8, 3, 1, 4, 1];
    let b = vec![0u8, 0, 2, 5, 2];
    assert_eq!(canonical_colors(&a), vec![0, 0, 1, 2, 1]);
    assert_eq!(canonical_colors(&b), canonical_colors(&a));
}

#[test]
fn test_corners_state_drops_mask() {
    let c = Cube::corners();
    // 24 corner facelets stay; the canonical recoloring of the solved
    // corner projection starts at color zero.
    let s = corners_state(&c);
    assert_eq!(s, {
        let kept: Vec<u8> = c.data().iter().copied().filter(|&x| x != 255).collect();
        assert_eq!(kept.len(), 24);
        base64::encode(&canonical_colors(&kept))
    });
}

#[test]
fn test_perm_strings() {
    let c = Cube::new(3);
    let (perm, _) = c.corners_data().unwrap();
    assert_eq!(corner_perm_as_string(&perm), "0,1,2,3,4,5,6,7");
    let (eperm, _) = c.edges_data(&edges1_mask()).unwrap();
    assert_eq!(edges_perm_as_string(&eperm), "0,1,2,3,4,5,12,12,12,12,12,12");
}

#[test]
fn test_masks() {
    let m1 = edges1_mask();
    let m2 = edges2_mask();
    assert_eq!(m1.len(), 6);
    assert_eq!(m2.len(), 6);
    assert!(m1.contains(&Edge::RedWhite));
    assert!(m2.contains(&Edge::BlueOrange));
    for e in &m1 {
        assert!(!m2.contains(e));
    }
}

#[test]
fn test_classification_tables() {
    assert!(matches!(Corner::from([0, 1, 4]), Some(Corner::BlueOrangeWhite)));
    assert!(matches!(Corner::from([3, 4, 5]), Some(Corner::GreenOrangeYellow)));
    assert!(Corner::from([0, 0, 0]).is_none());
    assert!(matches!(
        CornerOrientation::from([0, 1, 2]),
        Some(CornerOrientation::Up)
    ));
    assert!(matches!(
        CornerOrientation::from([1, 5, 2]),
        Some(CornerOrientation::Right)
    ));
    assert!(CornerOrientation::from([1, 2, 3]).is_none());
    let mask = edges1_mask();
    assert!(matches!(Edge::from([0, 4], &mask), Some(Edge::BlueOrange)));
    assert!(matches!(Edge::from([1, 2], &mask), Some(Edge::Ignored)));
    assert!(Edge::from([0, 0], &mask).is_none());
    assert!(matches!(EdgeOrientation::from([0, 4]), Some(EdgeOrientation::Good)));
    assert!(matches!(EdgeOrientation::from([4, 0]), Some(EdgeOrientation::Bad)));
    assert!(EdgeOrientation::from([0, 0]).is_none());
}

#[test]
fn test_ranktable_lookup() {
    let mut rt = RankTable::new();
    assert_eq!(rt.lookup(&vec![0, 1, 2]), None);
    rt.insert(vec![0, 1, 2], 7);
    rt.insert(vec![2, 1, 0], 9);
    assert_eq!(rt.lookup(&vec![0, 1, 2]), Some(7));
    assert_eq!(rt.lookup(&vec![2, 1, 0]), Some(9));
    assert_eq!(rt.lookup(&vec![1, 1, 1]), None);
    assert_eq!(rt.len(), 2);
}

#[test]
fn test_data_integrity_error() {
    // A vector no real puzzle can show: classification must abort.
    let junk = Cube::from_data(vec![9u8; 54]);
    assert!(matches!(junk.corners_data(), Err(SolverError::DataIntegrity)));
    let ranks = RankTable::new();
    assert!(matches!(
        cube_solver::indexer::corners_index(&junk, &ranks),
        Err(SolverError::DataIntegrity)
    ));
}

#[test]
fn test_missing_rank_is_configuration_error() {
    let c = Cube::new(3);
    let ranks = RankTable::new();
    assert!(matches!(
        cube_solver::indexer::corners_index(&c, &ranks),
        Err(SolverError::Configuration)
    ));
}

#[test]
fn test_move_set_validation() {
    // Eighteen identity arrays fail the group checks (a prime must be
    // the cube of its quarter turn, which the identity satisfies, but a
    // quarter turn must also be undone by its prime; the identity passes
    // that too, so build a set that genuinely breaks a relation).
    let ident: Vec<u8> = (0..24).collect();
    let mut bad = ident.clone();
    bad.swap(0, 1);
    // Quarter turn `bad` with prime `ident`: ident is not its inverse.
    let mut perms: Vec<Vec<u8>> = Vec::new();
    for _ in 0..6 {
        perms.push(bad.clone());
        perms.push(ident.clone());
        perms.push(ident.clone());
    }
    assert!(matches!(MoveSet::new(24, perms), Err(SolverError::Configuration)));
}

#[test]
fn test_projection_key_distinguishes() {
    let t = cube3().unwrap();
    let a = Cube::new(3);
    let mut b = Cube::new(3);
    b.twist(&t, "U").unwrap();
    assert!(!cube_solver::encode::same_projection_key(&a, &b));
    assert!(cube_solver::encode::same_projection_key(&a, &a));
    // A whole-puzzle recoloring shares the key; a different pattern does not.
    let c1 = Cube::from_data(vec![1, 1, 2, 0, 0, 0]);
    let c2 = Cube::from_data(vec![3, 3, 5, 4, 4, 4]);
    let c3 = Cube::from_data(vec![3, 3, 5, 4, 4, 5]);
    assert!(cube_solver::encode::same_projection_key(&c1, &c2));
    assert!(!cube_solver::encode::same_projection_key(&c1, &c3));
}
