use turing_canvas::editor::Editor;
use turing_canvas::graph::{EditError, Selection};
use turing_canvas::loading::{needs_repaint, on_load_clicked, on_pick_finished, FileLoad, LoadAction};
use turing_canvas::machine::{Machine, MachineState, Rule};
use turing_canvas::sync::{graph_to_rules, rules_to_graph};

#[test]
fn edited_rule_text_reaches_machine_and_code() {
    let mut e = Editor::new();
    assert_eq!(e.set_transition_text(0, 0, "0,0→1,R,R".to_string()), Ok(()));
    assert_eq!(e.states[0].transitions[0].text, "0,0→1,R,R");
    assert_eq!(e.machine.states[0].rules[0].text, "0,0→1,R,R");
    assert_eq!(e.states[0].transitions[0].target_id, 1);
    assert!(e.is_consistent());
    e.graph_to_code().unwrap();
    assert_eq!(e.code, "q_i {0,0→1,R,R} q_a;");
}

#[test]
fn editing_missing_transition_is_desync() {
    let mut e = Editor::new();
    assert_eq!(e.set_transition_text(1, 0, "x".to_string()), Err(EditError::Desync));
    assert_eq!(e.set_transition_text(7, 0, "x".to_string()), Err(EditError::Desync));
    assert_eq!(e.states[0].transitions[0].text, "ç,ç→ç,R,R");
}

#[test]
fn consistency_check() {
    let mut e = Editor::new();
    assert!(e.is_consistent());
    e.states[0].name = "renamed in place".to_string();
    assert!(e.is_consistent());
    e.states[0].transitions[0].target_id = 0;
    assert!(!e.is_consistent());
    let mut f = Editor::new();
    f.selection = Selection::State(5);
    assert!(!f.is_consistent());
    let mut h = Editor::new();
    h.machine.states[1].rules.push(Rule { text: "r".to_string(), target: 0 });
    assert!(!h.is_consistent());
}

#[test]
fn second_load_click_is_rejected() {
    assert_eq!(on_load_clicked(FileLoad::Idle), (FileLoad::Pending, LoadAction::StartPicker));
    assert_eq!(on_load_clicked(FileLoad::Pending), (FileLoad::Pending, LoadAction::Ignore));
}

#[test]
fn finished_pick_replaces_code() {
    let mut code = "old".to_string();
    assert_eq!(on_pick_finished(&mut code, None), FileLoad::Idle);
    assert_eq!(code, "old");
    assert_eq!(on_pick_finished(&mut code, Some("q_i {r} q_a;".to_string())), FileLoad::Idle);
    assert_eq!(code, "q_i {r} q_a;");
}

#[test]
fn repaint_only_while_unsettled_or_loading() {
    assert!(!needs_repaint(true, FileLoad::Idle));
    assert!(needs_repaint(false, FileLoad::Idle));
    assert!(needs_repaint(true, FileLoad::Pending));
}

#[test]
fn rebuilt_text_lists_every_rule_once() {
    let rule = |text: &str, target: u8| Rule { text: text.to_string(), target };
    let m = Machine {
        tracks: 1,
        states: vec![
            MachineState { name: "s".to_string(), rules: vec![rule("1", 1), rule("2", 2), rule("3", 1)] },
            MachineState { name: "t".to_string(), rules: vec![rule("4", 2)] },
            MachineState { name: "u".to_string(), rules: vec![rule("5", 0), rule("6", 2)] },
        ],
    };
    let g = rules_to_graph(&m).unwrap();
    let text = graph_to_rules(&g, &m).unwrap();
    let statements: Vec<&str> = text.split("\n\n").collect();
    assert_eq!(
        statements,
        vec!["q_s {1 | 3} q_t;", "q_s {2} q_u;", "q_t {4} q_u;", "q_u {5} q_s;", "q_u {6} q_u;"]
    );
}
