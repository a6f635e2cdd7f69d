use wave_collapse::collapse;
use wave_collapse::collapse_rule::CollapseRule;
use wave_collapse::differ_rule::DifferRule;
use wave_collapse::find_next_to_collapse;
use wave_collapse::space::Space;
use wave_collapse::state::State;
use wave_collapse::table_space::TableSpace;
use wave_collapse::tri_state::TriState;

fn isolated(states: Vec<TriState>) -> TableSpace<TriState> {
    let n = states.len();
    let nbr: Vec<Vec<Option<usize>>> = vec![vec![]; n];
    TableSpace::new(states, nbr).unwrap()
}

#[test]
fn selection_takes_minimum_entropy() {
    let states = vec![
        TriState::new(true, false, false), // entropy 0
        TriState::new(true, true, false),  // entropy 2
        TriState::new(true, true, true),   // entropy 3
    ];
    let space = isolated(states);
    for _ in 0..50 {
        let mut unresolved: Vec<usize> = vec![0, 1, 2];
        let mut candidates: Vec<usize> = Vec::new();
        let picked = find_next_to_collapse::<TriState, TableSpace<TriState>>(
            &mut unresolved,
            &mut candidates,
            &space,
        );
        assert_eq!(picked, Some(1));
        // The resolved coordinate was dropped from the unresolved set.
        assert_eq!(unresolved, vec![1, 2]);
        // The candidate buffer holds exactly the minimum-entropy coordinates.
        assert_eq!(candidates, vec![1]);
    }
}

#[test]
fn selection_returns_none_when_all_resolved() {
    let states = vec![TriState::new(true, false, false), TriState::new(false, false, false)];
    let space = isolated(states);
    let mut unresolved: Vec<usize> = vec![0, 1];
    let mut candidates: Vec<usize> = Vec::new();
    let picked = find_next_to_collapse::<TriState, TableSpace<TriState>>(
        &mut unresolved,
        &mut candidates,
        &space,
    );
    assert_eq!(picked, None);
    assert!(unresolved.is_empty());
}

#[test]
fn selection_breaks_ties_uniformly() {
    // Four cells of equal entropy: each should be picked about a quarter of
    // the time. 4000 draws, expected 1000 each; the bound is far beyond
    // sampling noise.
    let states = vec![TriState::new(true, true, false); 4];
    let space = isolated(states);
    let mut tally = [0usize; 4];
    for _ in 0..4000 {
        let mut unresolved: Vec<usize> = vec![0, 1, 2, 3];
        let mut candidates: Vec<usize> = Vec::new();
        let picked = find_next_to_collapse::<TriState, TableSpace<TriState>>(
            &mut unresolved,
            &mut candidates,
            &space,
        )
        .unwrap();
        assert_eq!(candidates.len(), 4);
        tally[picked] += 1;
    }
    for count in tally {
        assert!(count > 800 && count < 1200, "tie-breaking looks biased: {:?}", tally);
    }
}

#[test]
fn collapsed_space_is_a_fixed_point() {
    // After the driver returns, re-applying the rule to any cell against a
    // fresh snapshot of its neighborhood changes nothing.
    let states = vec![TriState::new(true, true, false); 5];
    let mut nbr: Vec<Vec<Option<usize>>> = Vec::new();
    for i in 0..5usize {
        let left = if i > 0 { Some(i - 1) } else { None };
        let right = if i + 1 < 5 { Some(i + 1) } else { None };
        nbr.push(vec![left, right]);
    }
    let mut space = TableSpace::new(states, nbr).unwrap();
    let rule = DifferRule { directions: 2 };
    collapse(&mut space, &rule);
    let deltas = rule.neighbor_offsets();
    for i in 0..5usize {
        let mut neighbors: Vec<Option<usize>> = Vec::new();
        space.neighbors(i, &deltas, &mut neighbors);
        let mut neighbor_states: Vec<Option<TriState>> = Vec::new();
        for nb in &neighbors {
            neighbor_states.push(nb.map(|c| *space.get(c)));
        }
        let mut cell = *space.get(i);
        rule.collapse(&mut cell, &neighbor_states);
        cell.observed = space.get(i).observed;
        assert_eq!(cell, *space.get(i));
    }
}

#[test]
fn rule_observe_keeps_a_possible_symbol() {
    let rule = DifferRule { directions: 0 };
    for _ in 0..100 {
        let mut cell = TriState::new(false, true, true);
        let empty: Vec<Option<TriState>> = Vec::new();
        rule.observe(&mut cell, &empty);
        assert_eq!(cell.entropy(), 0);
        assert!(!cell.a);
        assert!(cell.b ^ cell.c);
        assert!(cell.observed);
    }
}

#[test]
fn tri_state_entropy_values() {
    // Zero or one possibility is terminal; otherwise entropy is the count.
    assert_eq!(TriState::new(false, false, false).entropy(), 0);
    assert_eq!(TriState::new(false, true, false).entropy(), 0);
    assert_eq!(TriState::new(true, false, true).entropy(), 2);
    assert_eq!(TriState::new(true, true, true).entropy(), 3);
    assert_eq!(TriState::new(true, true, true).count(), 3);
    assert_eq!(TriState::new(false, false, false).count(), 0);
}

#[test]
fn table_space_rejects_bad_tables() {
    let states = vec![TriState::new(true, true, false); 2];
    // Wrong row count.
    assert!(TableSpace::new(states.clone(), vec![vec![None]]).is_none());
    // A link to a cell that does not exist.
    let states2 = vec![TriState::new(true, true, false); 2];
    assert!(TableSpace::new(states2, vec![vec![Some(5)], vec![None]]).is_none());
    // A well-formed table is accepted.
    let states3 = vec![TriState::new(true, true, false); 2];
    assert!(TableSpace::new(states3, vec![vec![Some(1)], vec![Some(0)]]).is_some());
}
