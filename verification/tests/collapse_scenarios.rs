use wave_collapse::collapse;
use wave_collapse::differ_rule::DifferRule;
use wave_collapse::space::Space;
use wave_collapse::state::State;
use wave_collapse::table_space::TableSpace;
use wave_collapse::tri_state::TriState;

fn flags(s: &TriState) -> u32 {
    (if s.a { 1 } else { 0 }) + (if s.b { 1 } else { 0 }) + (if s.c { 1 } else { 0 })
}

fn chain(states: Vec<TriState>) -> TableSpace<TriState> {
    let n = states.len();
    let mut nbr: Vec<Vec<Option<usize>>> = Vec::new();
    for i in 0..n {
        let left = if i > 0 { Some(i - 1) } else { None };
        let right = if i + 1 < n { Some(i + 1) } else { None };
        nbr.push(vec![left, right]);
    }
    TableSpace::new(states, nbr).unwrap()
}

fn observed_count(space: &TableSpace<TriState>, n: usize) -> usize {
    let mut count = 0;
    for i in 0..n {
        if space.get(i).observed {
            count += 1;
        }
    }
    count
}

#[test]
fn trivial_single_cell() {
    let states = vec![TriState::new(true, true, true)];
    let nbr: Vec<Vec<Option<usize>>> = vec![vec![]];
    let mut space = TableSpace::new(states, nbr).unwrap();
    assert_eq!(space.get(0).entropy(), 3);
    let rule = DifferRule { directions: 0 };
    collapse(&mut space, &rule);
    let s = space.get(0);
    assert_eq!(s.entropy(), 0);
    assert_eq!(flags(s), 1);
    assert!(s.observed);
}

#[test]
fn already_resolved() {
    let states = vec![
        TriState::new(true, false, false),
        TriState::new(false, true, false),
        TriState::new(true, false, false),
    ];
    let mut space = chain(states);
    let rule = DifferRule { directions: 2 };
    collapse(&mut space, &rule);
    assert_eq!(*space.get(0), TriState::new(true, false, false));
    assert_eq!(*space.get(1), TriState::new(false, true, false));
    assert_eq!(*space.get(2), TriState::new(true, false, false));
    assert_eq!(observed_count(&space, 3), 0);
}

#[test]
fn chain_alternation() {
    let states = vec![TriState::new(true, true, false); 5];
    let mut space = chain(states);
    let rule = DifferRule { directions: 2 };
    collapse(&mut space, &rule);
    for i in 0..5 {
        let s = space.get(i);
        assert_eq!(s.entropy(), 0);
        assert_eq!(flags(s), 1);
        assert!(!s.c);
    }
    for i in 0..4 {
        assert_ne!(space.get(i).a, space.get(i + 1).a);
    }
    // The whole chain cascades from the single observation.
    assert_eq!(observed_count(&space, 5), 1);
}

#[test]
fn preseeded_chain_is_deterministic() {
    for _ in 0..20 {
        let mut states = vec![TriState::new(true, true, false); 5];
        states[0] = TriState::new(true, false, false);
        let mut space = chain(states);
        let rule = DifferRule { directions: 2 };
        collapse(&mut space, &rule);
        for i in 0..5 {
            let s = space.get(i);
            assert_eq!(s.entropy(), 0);
            assert_eq!(flags(s), 1);
            // A at even positions, B at odd ones, every run.
            assert_eq!(s.a, i % 2 == 0);
            assert_eq!(s.b, i % 2 == 1);
        }
        // Everything resolved purely by propagation: nothing was observed.
        assert_eq!(observed_count(&space, 5), 0);
    }
}

#[test]
fn forced_middle_cell() {
    let mut states = vec![TriState::new(true, true, false); 3];
    states[0] = TriState::new(true, false, false);
    states[2] = TriState::new(true, false, false);
    let mut space = chain(states);
    let rule = DifferRule { directions: 2 };
    collapse(&mut space, &rule);
    // Both neighbors hold A, so the middle must hold B.
    assert_eq!(*space.get(1), TriState::new(false, true, false));
}

#[test]
fn contradiction_propagates_without_crash() {
    // Ends pinned to A and B: the middle cell must differ from both, and
    // with a two-symbol alphabet nothing is left for it.
    let mut states = vec![TriState::new(true, true, false); 3];
    states[0] = TriState::new(true, false, false);
    states[2] = TriState::new(false, true, false);
    let mut space = chain(states);
    let rule = DifferRule { directions: 2 };
    collapse(&mut space, &rule);
    for i in 0..3 {
        assert_eq!(space.get(i).entropy(), 0);
    }
    let middle = space.get(1);
    assert_eq!(flags(middle), 0);
}

#[test]
fn grid_boundary_handling() {
    // 3x3 grid, 4-neighborhood; boundary directions are None.
    let states = vec![TriState::new(true, true, false); 9];
    let mut nbr: Vec<Vec<Option<usize>>> = Vec::new();
    for r in 0..3usize {
        for col in 0..3usize {
            let up = if r > 0 { Some((r - 1) * 3 + col) } else { None };
            let down = if r < 2 { Some((r + 1) * 3 + col) } else { None };
            let left = if col > 0 { Some(r * 3 + col - 1) } else { None };
            let right = if col < 2 { Some(r * 3 + col + 1) } else { None };
            nbr.push(vec![up, down, left, right]);
        }
    }
    let mut space = TableSpace::new(states, nbr).unwrap();
    let rule = DifferRule { directions: 4 };
    collapse(&mut space, &rule);
    for i in 0..9 {
        let s = space.get(i);
        assert_eq!(s.entropy(), 0);
        assert_eq!(flags(s), 1);
    }
    // Adjacent cells differ: the grid is a checkerboard.
    for r in 0..3usize {
        for col in 0..3usize {
            let here = space.get(r * 3 + col).a;
            if col < 2 {
                assert_ne!(here, space.get(r * 3 + col + 1).a);
            }
            if r < 2 {
                assert_ne!(here, space.get((r + 1) * 3 + col).a);
            }
        }
    }
}

#[test]
fn isolated_cells_all_observed() {
    // No adjacency at all: propagation can resolve nothing, so every cell
    // must be resolved by its own observation.
    let states = vec![TriState::new(true, true, true); 3];
    let nbr: Vec<Vec<Option<usize>>> = vec![vec![], vec![], vec![]];
    let mut space = TableSpace::new(states, nbr).unwrap();
    let rule = DifferRule { directions: 0 };
    collapse(&mut space, &rule);
    for i in 0..3 {
        let s = space.get(i);
        assert_eq!(s.entropy(), 0);
        assert_eq!(flags(s), 1);
        assert!(s.observed);
    }
    assert_eq!(observed_count(&space, 3), 3);
}
