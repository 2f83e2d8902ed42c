use turing_canvas::graph::{EditError, State, Transition};
use turing_canvas::machine::{blank_rule, Machine, MachineState, Rule};
use turing_canvas::sync::{graph_to_rules, machine_is_consistent, rules_to_graph};

fn state(name: &str, rules: Vec<(&str, u8)>) -> MachineState {
    MachineState {
        name: name.to_string(),
        rules: rules
            .into_iter()
            .map(|(text, target)| Rule { text: text.to_string(), target })
            .collect(),
    }
}

fn two_state_machine() -> Machine {
    Machine {
        tracks: 1,
        states: vec![state("i", vec![("ç,ç→ç,R,R", 1)]), state("a", vec![])],
    }
}

#[test]
fn single_rule_gives_single_statement() {
    let m = two_state_machine();
    let g = rules_to_graph(&m).unwrap();
    assert_eq!(graph_to_rules(&g, &m).unwrap(), "q_i {ç,ç→ç,R,R} q_a;");
}

#[test]
fn rebuild_gives_two_states_and_one_transition() {
    let m = two_state_machine();
    let g = rules_to_graph(&m).unwrap();
    assert_eq!(g.len(), 2);
    assert_eq!(g[0].name, "i");
    assert_eq!(g[1].name, "a");
    assert_eq!(g[0].transitions.len() + g[1].transitions.len(), 1);
    let t = &g[0].transitions[0];
    assert_eq!(t.target_id, 1);
    assert_eq!(t.parent_id, 0);
    assert_eq!(t.id, 0);
    assert_eq!(t.text, "ç,ç→ç,R,R");
}

#[test]
fn rules_with_same_ends_share_a_statement() {
    let m = Machine {
        tracks: 1,
        states: vec![
            state("i", vec![("a,a→a,R,R", 1), ("b,b→b,L,L", 0), ("c,c→c,R,R", 1)]),
            state("a", vec![("x,x→x,R,R", 0)]),
        ],
    };
    let g = rules_to_graph(&m).unwrap();
    let text = graph_to_rules(&g, &m).unwrap();
    assert_eq!(
        text,
        "q_i {a,a→a,R,R | c,c→c,R,R} q_a;\n\nq_i {b,b→b,L,L} q_i;\n\nq_a {x,x→x,R,R} q_i;"
    );
}

#[test]
fn empty_diagram_gives_empty_text() {
    let m = Machine { tracks: 1, states: vec![state("i", vec![])] };
    let g = rules_to_graph(&m).unwrap();
    assert_eq!(graph_to_rules(&g, &m).unwrap(), "");
}

#[test]
fn target_names_come_from_the_machine() {
    let m = two_state_machine();
    let mut g = rules_to_graph(&m).unwrap();
    g[0].name = "start".to_string();
    let mut renamed = two_state_machine();
    renamed.states[1].name = "accept".to_string();
    assert_eq!(graph_to_rules(&g, &renamed).unwrap(), "q_start {ç,ç→ç,R,R} q_accept;");
}

#[test]
fn unresolved_target_is_desync() {
    let m = two_state_machine();
    let g = vec![State {
        id: 0,
        name: "i".to_string(),
        color: turing_canvas::constant::Constant::primary_color(),
        transitions: vec![Transition { text: "r".to_string(), id: 0, parent_id: 0, target_id: 7 }],
    }];
    assert_eq!(graph_to_rules(&g, &m), Err(EditError::Desync));
}

#[test]
fn inconsistent_machine_is_desync() {
    let m = Machine { tracks: 1, states: vec![state("i", vec![("r", 3)])] };
    assert!(!machine_is_consistent(&m));
    assert!(matches!(rules_to_graph(&m), Err(EditError::Desync)));
    assert!(machine_is_consistent(&two_state_machine()));
}

#[test]
fn blank_rule_sized_to_tracks() {
    assert_eq!(blank_rule(1), "ç,ç→ç,R,R");
    assert_eq!(blank_rule(2), "ç,ç,ç→ç,ç,R,R,R");
    assert_eq!(blank_rule(0), "ç→R");
}

#[test]
fn machine_rule_lookup_and_append() {
    let mut m = two_state_machine();
    assert!(m.has_rule(0, 1));
    assert!(!m.has_rule(1, 0));
    assert!(!m.has_rule(5, 0));
    assert_eq!(m.append_rule(1, "r".to_string(), 0), Some(0));
    assert!(m.has_rule(1, 0));
    assert_eq!(m.append_rule(1, "r".to_string(), 9), None);
    assert_eq!(m.append_rule(4, "r".to_string(), 0), None);
}
