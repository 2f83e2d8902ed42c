use turing_canvas::editor::{first_free_name, Editor};
use turing_canvas::graph::{EditError, Selection, State};
use turing_canvas::machine::{Machine, MachineState, Rule};

#[test]
fn new_session_has_default_machine() {
    let e = Editor::new();
    assert_eq!(e.machine.tracks, 1);
    assert_eq!(e.states.len(), 2);
    assert_eq!(e.states[0].name, "i");
    assert_eq!(e.states[1].name, "a");
    assert_eq!(e.states[0].transitions[0].text, "ç,ç→ç,R,R");
    assert_eq!(e.states[0].transitions[0].target_id, 1);
    assert_eq!(e.selection, Selection::Nothing);
    assert_eq!(e.code, "");
}

#[test]
fn default_session_to_code() {
    let mut e = Editor::new();
    assert_eq!(e.graph_to_code(), Ok(()));
    assert_eq!(e.code, "q_i {ç,ç→ç,R,R} q_a;");
}

#[test]
fn click_then_click_creates_edge() {
    let mut e = Editor::new();
    assert_eq!(e.click_state(1), Ok(()));
    assert_eq!(e.selection, Selection::State(1));
    assert_eq!(e.click_state(0), Ok(()));
    assert_eq!(e.selection, Selection::Nothing);
    assert_eq!(e.states[1].transitions.len(), 1);
    let t = &e.states[1].transitions[0];
    assert_eq!(t.parent_id, 1);
    assert_eq!(t.target_id, 0);
    assert_eq!(t.id, 0);
    assert_eq!(t.text, "ç,ç→ç,R,R");
    assert_eq!(e.states[0].transitions.len(), 1);
    assert_eq!(e.machine.states[1].rules.len(), 1);
    assert_eq!(e.machine.states[1].rules[0].target, 0);
}

#[test]
fn self_loop_edge() {
    let mut e = Editor::new();
    e.click_state(0).unwrap();
    e.click_state(0).unwrap();
    assert_eq!(e.states[0].transitions.len(), 2);
    assert_eq!(e.states[0].transitions[1].target_id, 0);
    assert_eq!(e.states[0].transitions[1].id, 1);
}

#[test]
fn click_on_missing_state_is_desync() {
    let mut e = Editor::new();
    assert_eq!(e.click_state(9), Err(EditError::Desync));
    assert_eq!(e.selection, Selection::Nothing);
}

#[test]
fn edge_on_full_state_is_rule_limit() {
    let mut e = Editor::new();
    let rules: Vec<Rule> = (0..256).map(|_| Rule { text: "r".to_string(), target: 1 }).collect();
    let m = Machine {
        tracks: 1,
        states: vec![
            MachineState { name: "i".to_string(), rules },
            MachineState { name: "a".to_string(), rules: vec![] },
        ],
    };
    assert_eq!(e.compile(Some(m)), Ok(()));
    e.click_state(0).unwrap();
    assert_eq!(e.click_state(1), Err(EditError::RuleLimit));
    assert_eq!(e.states[0].transitions.len(), 256);
}

#[test]
fn rename_to_taken_name_gets_suffix() {
    let mut e = Editor::new();
    e.click_state(1).unwrap();
    e.states[1].name = "i".to_string();
    e.commit_rename();
    assert_eq!(e.states[1].name, "i2");
    assert_eq!(e.machine.states[1].name, "i2");
    assert_ne!(e.states[1].name, e.states[0].name);
    assert_eq!(e.selection, Selection::Nothing);
}

#[test]
fn rename_to_free_name_is_kept() {
    let mut e = Editor::new();
    e.click_state(1).unwrap();
    e.states[1].name = "accept".to_string();
    e.commit_rename();
    assert_eq!(e.states[1].name, "accept");
    e.graph_to_code().unwrap();
    assert_eq!(e.code, "q_i {ç,ç→ç,R,R} q_accept;");
}

#[test]
fn free_name_skips_every_taken_suffix() {
    let states = vec![
        State::new(0, "q".to_string()),
        State::new(1, "q2".to_string()),
        State::new(2, "q22".to_string()),
        State::new(3, "q".to_string()),
    ];
    assert_eq!(first_free_name(&states, 3, &"q".to_string()), "q222");
    assert_eq!(first_free_name(&states, 0, &"q".to_string()), "q222");
    assert_eq!(first_free_name(&states, 3, &"p".to_string()), "p");
}

#[test]
fn enter_without_state_selected_changes_nothing() {
    let mut e = Editor::new();
    e.click_transition(0, 0);
    e.commit_rename();
    assert_eq!(e.selection, Selection::Transition(0, 0));
    assert_eq!(e.states[0].name, "i");
}

#[test]
fn canvas_and_label_clicks() {
    let mut e = Editor::new();
    e.click_state(0).unwrap();
    e.click_transition(0, 0);
    assert_eq!(e.selection, Selection::Transition(0, 0));
    e.click_canvas();
    assert_eq!(e.selection, Selection::Nothing);
}

#[test]
fn failed_compile_keeps_session() {
    let mut e = Editor::new();
    assert_eq!(e.compile(None), Err(EditError::Compile));
    assert_eq!(e.states.len(), 2);
    let bad = Machine {
        tracks: 1,
        states: vec![MachineState {
            name: "x".to_string(),
            rules: vec![Rule { text: "r".to_string(), target: 4 }],
        }],
    };
    assert_eq!(e.compile(Some(bad)), Err(EditError::Desync));
    assert_eq!(e.states[0].name, "i");
    assert_eq!(e.machine.states.len(), 2);
}

#[test]
fn compile_replaces_machine_and_diagram() {
    let mut e = Editor::new();
    e.click_state(0).unwrap();
    let m = Machine {
        tracks: 2,
        states: vec![
            MachineState { name: "s".to_string(), rules: vec![] },
            MachineState { name: "t".to_string(), rules: vec![] },
            MachineState {
                name: "u".to_string(),
                rules: vec![Rule { text: "r".to_string(), target: 0 }],
            },
        ],
    };
    assert_eq!(e.compile(Some(m)), Ok(()));
    assert_eq!(e.states.len(), 3);
    assert_eq!(e.states[2].transitions[0].target_id, 0);
    assert_eq!(e.selection, Selection::Nothing);
    e.click_state(0).unwrap();
    e.click_state(1).unwrap();
    assert_eq!(e.states[0].transitions[0].text, "ç,ç,ç→ç,ç,R,R,R");
}

#[test]
fn code_to_graph_rebuilds() {
    let mut e = Editor::new();
    e.states[0].name = "edited".to_string();
    assert_eq!(e.code_to_graph(), Ok(()));
    assert_eq!(e.states[0].name, "i");
}
