use turing_canvas::graph::EditError;
use turing_canvas::layout::{pair_law, ForceLaw};
use turing_canvas::machine::{Machine, MachineState, Rule};
use turing_canvas::render::plan_edges;
use turing_canvas::sync::rules_to_graph;

fn machine() -> Machine {
    let rule = |target: u8| Rule { text: format!("to {}", target), target };
    Machine {
        tracks: 1,
        states: vec![
            MachineState { name: "a".to_string(), rules: vec![rule(1), rule(0), rule(1)] },
            MachineState { name: "b".to_string(), rules: vec![rule(0)] },
            MachineState { name: "c".to_string(), rules: vec![rule(1)] },
        ],
    }
}

#[test]
fn groups_by_source_then_target() {
    let m = machine();
    let g = rules_to_graph(&m).unwrap();
    let plan = plan_edges(&g, &m).unwrap();
    let keys: Vec<(u8, u8)> = plan.iter().map(|e| (e.from, e.to)).collect();
    assert_eq!(keys, vec![(0, 0), (0, 1), (1, 0), (2, 1)]);
    assert_eq!(plan[0].transitions, vec![1]);
    assert_eq!(plan[1].transitions, vec![0, 2]);
    assert_eq!(plan[2].transitions, vec![0]);
}

#[test]
fn both_ways_flips_lower_to_higher() {
    let m = machine();
    let g = rules_to_graph(&m).unwrap();
    let plan = plan_edges(&g, &m).unwrap();
    let flags: Vec<bool> = plan.iter().map(|e| e.reverse).collect();
    // 0 -> 1 has a way back and 1 > 0; 1 -> 0 is the other curve; 2 -> 1 has
    // no way back; a loop is never flipped.
    assert_eq!(flags, vec![false, true, false, false]);
}

#[test]
fn plan_of_unresolved_rule_is_desync() {
    let m = machine();
    let mut g = rules_to_graph(&m).unwrap();
    g[2].transitions[0].id = 5;
    assert!(matches!(plan_edges(&g, &m), Err(EditError::Desync)));
}

#[test]
fn force_law_by_adjacency_and_distance() {
    let m = machine();
    assert_eq!(pair_law(&m, 0, 1, false), ForceLaw::Spring);
    assert_eq!(pair_law(&m, 1, 2, true), ForceLaw::Spring);
    assert_eq!(pair_law(&m, 0, 2, true), ForceLaw::Repulsion);
    assert_eq!(pair_law(&m, 0, 2, false), ForceLaw::Zero);
    assert_eq!(pair_law(&m, 1, 1, true), ForceLaw::Zero);
}

#[test]
fn force_law_is_symmetric() {
    let m = machine();
    for i in 0..3u8 {
        for j in 0..3u8 {
            for near in [false, true] {
                assert_eq!(pair_law(&m, i, j, near), pair_law(&m, j, i, near));
            }
        }
    }
}
