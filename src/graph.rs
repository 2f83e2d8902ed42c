//! The diagram: states in a dense vector indexed by id, each owning the
//! transitions that leave it, and the current selection.

use vstd::prelude::*;
use crate::color::Color;
use crate::machine::Machine;

verus! {

/// A transition as the diagram shows it: the rule text, its index in the
/// rule list of its source state, and the ids of its source and target.
#[derive(Debug)]
pub struct Transition {
    pub text: String,
    pub id: u8,
    pub parent_id: u8,
    pub target_id: u8,
}

/// A node of the diagram. Its position lives with the drawing code.
#[derive(Debug)]
pub struct State {
    pub id: u8,
    pub name: String,
    pub color: Color,
    pub transitions: Vec<Transition>,
}

/// What the user has selected: nothing, one state, or one transition named
/// by its source state and its index there.
#[derive(Clone, Copy, Debug, PartialEq, Eq, Structural)]
pub enum Selection {
    Nothing,
    State(u8),
    Transition(u8, u8),
}

/// Failures of the editing operations.
#[derive(Clone, Copy, Debug, PartialEq, Eq, Structural)]
pub enum EditError {
    /// The diagram and the machine do not correspond: a state or rule index
    /// does not resolve, or the machine has more states or rules than ids.
    Desync,
    /// The rule text could not be turned into a machine.
    Compile,
    /// The source state of a new edge already has 256 rules.
    RuleLimit,
}

impl State {
    /// A state with id `id` and name `name`, the primary color and no
    /// transitions.
    pub fn new(id: u8, name: String) -> (r: State)
        ensures
            r.id == id,
            r.name == name,
            r.color == crate::constant::Constant::spec_primary_color(),
            r.transitions@.len() == 0,
    {
        State { id, name, color: crate::constant::Constant::primary_color(), transitions: Vec::new() }
    }
}

/// Ids are positions: state `i` has id `i`, its transition `k` has id `k`
/// and parent `i`, and there are at most 256 states and 256 transitions per
/// state.
pub open spec fn graph_wf(g: Seq<State>) -> bool {
    &&& g.len() <= 256
    &&& forall|i: int| 0 <= i < g.len() ==> (#[trigger] g[i]).id == i && g[i].transitions@.len() <= 256
    &&& forall|i: int, k: int|
        0 <= i < g.len() && 0 <= k < g[i].transitions@.len() ==> (#[trigger] g[i].transitions@[k]).id
            == k && g[i].transitions@[k].parent_id == i
}

/// The transitions of a state show exactly the rules of a machine state.
pub open spec fn transitions_mirror(ts: Seq<Transition>, m: Machine, i: int) -> bool {
    &&& ts.len() == m.states@[i].rules@.len()
    &&& forall|k: int|
        0 <= k < ts.len() ==> (#[trigger] ts[k]).text@ == m.states@[i].rules@[k].text@
            && ts[k].target_id == m.states@[i].rules@[k].target
}

/// The diagram shows exactly the states and rules of the machine, in the
/// same order, under the same names.
pub open spec fn mirrors(g: Seq<State>, m: Machine) -> bool {
    &&& g.len() == m.states@.len()
    &&& forall|i: int|
        0 <= i < g.len() ==> (#[trigger] g[i]).name@ == m.states@[i].name@ && transitions_mirror(
            g[i].transitions@,
            m,
            i,
        )
}

} // verus!
