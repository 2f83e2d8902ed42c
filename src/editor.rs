//! The editing session: the machine, the diagram that mirrors it, the
//! selection, and the rule text; and the reactions to the user's clicks and
//! keys.

use vstd::prelude::*;
use crate::constant::Constant;
use crate::graph::{graph_wf, transitions_mirror, EditError, Selection, State, Transition};
use crate::machine::{blank_rule, blank_rule_text, machine_wf, Machine, MachineState, Rule};
use crate::sync::{graph_to_rules, rules_to_graph, rules_text, targets_resolve};

verus! {

/// The session state that the window edits.
pub struct Editor {
    pub machine: Machine,
    pub states: Vec<State>,
    pub selection: Selection,
    pub code: String,
}

/// The diagram has one state per machine state and one transition per rule,
/// with matching texts and targets. Names may differ while one is being
/// edited in place.
pub open spec fn structure_mirrors(g: Seq<State>, m: Machine) -> bool {
    &&& g.len() == m.states@.len()
    &&& forall|i: int| 0 <= i < g.len() ==> transitions_mirror(#[trigger] g[i].transitions@, m, i)
}

/// Some state other than `id` is named `s`.
pub open spec fn name_taken(g: Seq<State>, id: int, s: Seq<char>) -> bool {
    exists|q: int| 0 <= q < g.len() && q != id && (#[trigger] g[q]).name@ == s
}

/// `j` copies of the character `2`.
pub open spec fn twos(j: nat) -> Seq<char> {
    Seq::new(j, |i: int| '2')
}

/// `base` followed by the fewest `2`s that make it a name no state but `id`
/// has.
pub open spec fn is_first_free_name(g: Seq<State>, id: int, base: Seq<char>, r: Seq<char>) -> bool {
    exists|j: nat|
        r == base + twos(j) && !name_taken(g, id, r) && forall|p: nat|
            p < j ==> name_taken(g, id, #[trigger] (base + twos(p)))
}

/// A name chosen by `first_free_name` differs from the name of every other
/// state.
pub proof fn lemma_free_name_is_unique(g: Seq<State>, id: int, base: Seq<char>, r: Seq<char>)
    requires
        is_first_free_name(g, id, base, r),
    ensures
        forall|q: int| 0 <= q < g.len() && q != id ==> (#[trigger] g[q]).name@ != r,
{
}

/// The length of the longest name among the states other than `id`.
pub open spec fn longest_other_name(g: Seq<State>, id: int) -> int
    decreases g.len(),
{
    if g.len() == 0 {
        0
    } else {
        let rest = longest_other_name(g.drop_last(), id);
        let here = if g.len() - 1 == id {
            0
        } else {
            g.last().name@.len() as int
        };
        if here > rest {
            here
        } else {
            rest
        }
    }
}

impl Editor {
    /// The session is consistent: the machine can be mirrored, ids are
    /// positions, and the diagram has the machine's shape; a selected state
    /// exists.
    pub open spec fn wf(&self) -> bool {
        &&& machine_wf(self.machine)
        &&& graph_wf(self.states@)
        &&& structure_mirrors(self.states@, self.machine)
        &&& match self.selection {
            Selection::State(s) => s < self.states@.len(),
            _ => true,
        }
    }
}

fn longest_name_except(states: &Vec<State>, id: usize) -> (r: usize)
    ensures
        r == longest_other_name(states@, id as int),
{
    let mut best: usize = 0;
    let mut i: usize = 0;
    while i < states.len()
        invariant
            i <= states@.len(),
            best == longest_other_name(states@.take(i as int), id as int),
        decreases states@.len() - i,
    {
        proof {
            assert(states@.take(i as int + 1).drop_last() =~= states@.take(i as int));
        }
        if i != id {
            let len = states[i].name.unicode_len();
            if len > best {
                best = len;
            }
        }
        i = i + 1;
    }
    assert(states@.take(i as int) =~= states@);
    best
}

proof fn lemma_longest_bounds(g: Seq<State>, id: int, q: int)
    requires
        0 <= q < g.len(),
        q != id,
    ensures
        g[q].name@.len() <= longest_other_name(g, id),
    decreases g.len(),
{
    if q < g.len() - 1 {
        lemma_longest_bounds(g.drop_last(), id, q);
    }
}

fn is_name_taken(states: &Vec<State>, id: usize, s: &String) -> (r: bool)
    ensures
        r == name_taken(states@, id as int, s@),
{
    let mut i: usize = 0;
    while i < states.len()
        invariant
            i <= states@.len(),
            forall|q: int| 0 <= q < i && q != id ==> (#[trigger] states@[q]).name@ != s@,
        decreases states@.len() - i,
    {
        if i != id && states[i].name == *s {
            return true;
        }
        i = i + 1;
    }
    false
}

/// The name that state `id` gets when its edited name `base` is committed:
/// `base` itself if no other state has it, else `base` followed by as few
/// `2`s as make it unused. At most one more attempt is made than the longest
/// other name has characters.
pub fn first_free_name(states: &Vec<State>, id: usize, base: &String) -> (r: String)
    ensures
        is_first_free_name(states@, id as int, base@, r@),
        r@.len() <= base@.len() + longest_other_name(states@, id as int) + 1,
{
    proof {
        reveal_strlit("2");
    }
    let longest = longest_name_except(states, id);
    let mut cand = base.clone();
    let ghost mut j: nat = 0;
    assert(cand@ =~= base@ + twos(0));
    while is_name_taken(states, id, &cand)
        invariant
            longest == longest_other_name(states@, id as int),
            cand@ == base@ + twos(j),
            j <= longest + 1,
            forall|p: nat| p < j ==> name_taken(states@, id as int, #[trigger] (base@ + twos(p))),
        decreases longest + 1 - j,
    {
        proof {
            let q = choose|q: int|
                0 <= q < states@.len() && q != id && (#[trigger] states@[q]).name@ == cand@;
            lemma_longest_bounds(states@, id as int, q);
            reveal_strlit("2");
            assert(base@ + twos(j + 1) =~= cand@ + "2"@);
        }
        cand.append("2");
        proof {
            j = j + 1;
        }
    }
    cand
}

impl Editor {
    /// The session the window opens with: a one-track machine with states
    /// `i` and `a` and one blank rule from `i` to `a`, mirrored by the
    /// diagram, nothing selected, no text.
    pub fn new() -> (r: Editor)
        ensures
            r.wf(),
            r.machine.tracks == 1,
            r.machine.states@.len() == 2,
            r.machine.states@[0].name@ == seq!['i'],
            r.machine.states@[1].name@ == seq!['a'],
            r.machine.states@[0].rules@ == seq![Rule { text: r.machine.states@[0].rules@[0].text, target: 1 }],
            r.machine.states@[0].rules@[0].text@ == blank_rule_text(1),
            r.machine.states@[1].rules@.len() == 0,
            crate::graph::mirrors(r.states@, r.machine),
            r.selection == Selection::Nothing,
            r.code@.len() == 0,
    {
        proof {
            reveal_strlit("i");
            reveal_strlit("a");
        }
        let mut rules: Vec<Rule> = Vec::new();
        rules.push(Rule { text: blank_rule(1), target: 1 });
        let mut states: Vec<MachineState> = Vec::new();
        states.push(MachineState { name: String::from_str("i"), rules });
        states.push(MachineState { name: String::from_str("a"), rules: Vec::new() });
        let machine = Machine { tracks: 1, states };
        assert(machine.states@[0].rules@.len() == 1);
        assert(machine_wf(machine));
        let g = match rules_to_graph(&machine) {
            Ok(g) => g,
            Err(_) => Vec::new(),
        };
        Editor { machine, states: g, selection: Selection::Nothing, code: String::new() }
    }
}


fn replace_transitions(states: &mut Vec<State>, a: usize, t: Transition)
    requires
        a < old(states)@.len(),
    ensures
        final(states)@.len() == old(states)@.len(),
        forall|q: int| 0 <= q < old(states)@.len() && q != a ==> final(states)@[q] == old(states)@[q],
        final(states)@[a as int].id == old(states)@[a as int].id,
        final(states)@[a as int].name == old(states)@[a as int].name,
        final(states)@[a as int].color == old(states)@[a as int].color,
        final(states)@[a as int].transitions@ == old(states)@[a as int].transitions@.push(t),
{
    let mut st = states.remove(a);
    st.transitions.push(t);
    states.insert(a, st);
}

fn rename_state(states: &mut Vec<State>, a: usize, name: String)
    requires
        a < old(states)@.len(),
    ensures
        final(states)@ == old(states)@.update(
            a as int,
            State {
                id: old(states)@[a as int].id,
                name,
                color: old(states)@[a as int].color,
                transitions: old(states)@[a as int].transitions,
            },
        ),
{
    let mut st = states.remove(a);
    st.name = name;
    states.insert(a, st);
    assert(states@ =~= old(states)@.update(
        a as int,
        State {
            id: old(states)@[a as int].id,
            name,
            color: old(states)@[a as int].color,
            transitions: old(states)@[a as int].transitions,
        },
    ));
}

fn rename_machine_state(m: &mut Machine, a: usize, name: String)
    requires
        a < old(m).states@.len(),
    ensures
        final(m).tracks == old(m).tracks,
        final(m).states@ == old(m).states@.update(
            a as int,
            MachineState { name, rules: old(m).states@[a as int].rules },
        ),
{
    let mut st = m.states.remove(a);
    st.name = name;
    m.states.insert(a, st);
    assert(m.states@ =~= old(m).states@.update(
        a as int,
        MachineState { name, rules: old(m).states@[a as int].rules },
    ));
}

impl Editor {
    /// A click on state `clicked`. With no state selected, it selects
    /// `clicked`. With state `a` selected, it creates an edge: the blank rule
    /// is appended to the rules of `a` in the machine and, as a transition
    /// with the next id, parent `a` and target `clicked`, to the transitions
    /// of `a` in the diagram; the selection is cleared. A click on a state
    /// that does not exist is `Desync`; a source with 256 rules already is
    /// `RuleLimit`; either way nothing changes.
    pub fn click_state(&mut self, clicked: u8) -> (r: Result<(), EditError>)
        requires
            old(self).wf(),
        ensures
            final(self).wf(),
            r.is_err() ==> *final(self) == *old(self),
            clicked >= old(self).states@.len() ==> r == Err::<(), EditError>(EditError::Desync),
            clicked < old(self).states@.len() ==> match old(self).selection {
                Selection::State(a) => {
                    &&& (r.is_ok() <==> old(self).machine.states@[a as int].rules@.len() < 256)
                    &&& r.is_err() ==> r == Err::<(), EditError>(EditError::RuleLimit)
                    &&& r.is_ok() ==> {
                        let ts = final(self).states@[a as int].transitions@;
                        let t = ts.last();
                        &&& final(self).selection == Selection::Nothing
                        &&& final(self).code == old(self).code
                        &&& final(self).states@.len() == old(self).states@.len()
                        &&& forall|q: int|
                            0 <= q < old(self).states@.len() && q != a ==> final(self).states@[q]
                                == old(self).states@[q]
                        &&& final(self).states@[a as int].name == old(self).states@[a as int].name
                        &&& final(self).states@[a as int].color == old(self).states@[a as int].color
                        &&& ts == old(self).states@[a as int].transitions@.push(t)
                        &&& t.id as int == old(self).states@[a as int].transitions@.len()
                        &&& t.parent_id == a
                        &&& t.target_id == clicked
                        &&& t.text@ == blank_rule_text(old(self).machine.tracks as nat)
                        &&& final(self).machine.tracks == old(self).machine.tracks
                        &&& final(self).machine.states@[a as int].rules@ == old(
                            self,
                        ).machine.states@[a as int].rules@.push(
                            Rule { text: final(self).machine.states@[a as int].rules@.last().text, target: clicked },
                        )
                        &&& final(self).machine.states@[a as int].rules@.last().text@ == t.text@
                        &&& final(self).machine.states@ == old(self).machine.states@.update(
                            a as int,
                            MachineState {
                                name: old(self).machine.states@[a as int].name,
                                rules: final(self).machine.states@[a as int].rules,
                            },
                        )
                    }
                },
                _ => r.is_ok() && final(self).selection == Selection::State(clicked)
                    && final(self).machine == old(self).machine && final(self).states
                    == old(self).states && final(self).code == old(self).code,
            },
    {
        if clicked as usize >= self.states.len() {
            return Err(EditError::Desync);
        }
        match self.selection {
            Selection::State(a) => {
                let text = blank_rule(self.machine.tracks);
                let ghost old_m = self.machine;
                let ghost old_g = self.states@;
                match self.machine.append_rule(a, text.clone(), clicked) {
                    None => Err(EditError::RuleLimit),
                    Some(id) => {
                        replace_transitions(
                            &mut self.states,
                            a as usize,
                            Transition { text, id, parent_id: a, target_id: clicked },
                        );
                        self.selection = Selection::Nothing;
                        proof {
                            let m = self.machine;
                            let g = self.states@;
                            assert forall|i: int|
                                0 <= i < m.states@.len() implies #[trigger] m.states@[i].rules@.len()
                                <= 256 by {
                                if i != a {
                                    assert(m.states@[i] == old_m.states@[i]);
                                }
                            }
                            assert forall|i: int, k: int|
                                0 <= i < m.states@.len() && 0 <= k < m.states@[i].rules@.len() implies (
                                #[trigger] m.states@[i].rules@[k]).target < m.states@.len() by {
                                if i != a {
                                    assert(m.states@[i] == old_m.states@[i]);
                                } else if k < old_m.states@[i].rules@.len() {
                                    assert(m.states@[i].rules@[k] == old_m.states@[i].rules@[k]);
                                }
                            }
                            assert forall|i: int, k: int|
                                0 <= i < g.len() && 0 <= k < g[i].transitions@.len() implies (
                                #[trigger] g[i].transitions@[k]).id == k
                                && g[i].transitions@[k].parent_id == i by {
                                if i != a {
                                    assert(g[i] == old_g[i]);
                                } else if k < old_g[i].transitions@.len() {
                                    assert(g[i].transitions@[k] == old_g[i].transitions@[k]);
                                }
                            }
                            assert forall|i: int| 0 <= i < g.len() implies transitions_mirror(
                                #[trigger] g[i].transitions@,
                                m,
                                i,
                            ) by {
                                if i != a {
                                    assert(g[i] == old_g[i]);
                                    assert(m.states@[i] == old_m.states@[i]);
                                    assert(transitions_mirror(old_g[i].transitions@, old_m, i));
                                } else {
                                    assert(transitions_mirror(old_g[i].transitions@, old_m, i));
                                    assert forall|k: int| 0 <= k < g[i].transitions@.len() implies (
                                    #[trigger] g[i].transitions@[k]).text@ == m.states@[i].rules@[k].text@
                                        && g[i].transitions@[k].target_id
                                        == m.states@[i].rules@[k].target by {
                                        if k < old_g[i].transitions@.len() {
                                            assert(g[i].transitions@[k] == old_g[i].transitions@[k]);
                                            assert(m.states@[i].rules@[k] == old_m.states@[i].rules@[k]);
                                        }
                                    }
                                }
                            }
                            assert forall|i: int| 0 <= i < g.len() implies (#[trigger] g[i]).id == i
                                && g[i].transitions@.len() <= 256 by {
                                if i != a {
                                    assert(g[i] == old_g[i]);
                                }
                            }
                        }
                        Ok(())
                    },
                }
            },
            _ => {
                self.selection = Selection::State(clicked);
                Ok(())
            },
        }
    }

    /// The Enter key. With state `id` selected, its edited name is
    /// committed, made unique first (see `first_free_name`), in the diagram
    /// and in the machine alike, and the selection is cleared. Otherwise
    /// nothing changes.
    pub fn commit_rename(&mut self)
        requires
            old(self).wf(),
        ensures
            final(self).wf(),
            match old(self).selection {
                Selection::State(id) => {
                    let name = final(self).states@[id as int].name;
                    &&& is_first_free_name(
                        old(self).states@,
                        id as int,
                        old(self).states@[id as int].name@,
                        name@,
                    )
                    &&& final(self).states@ == old(self).states@.update(
                        id as int,
                        State {
                            id: old(self).states@[id as int].id,
                            name,
                            color: old(self).states@[id as int].color,
                            transitions: old(self).states@[id as int].transitions,
                        },
                    )
                    &&& final(self).machine.tracks == old(self).machine.tracks
                    &&& final(self).machine.states@ == old(self).machine.states@.update(
                        id as int,
                        MachineState { name, rules: old(self).machine.states@[id as int].rules },
                    )
                    &&& final(self).selection == Selection::Nothing
                    &&& final(self).code == old(self).code
                },
                _ => *final(self) == *old(self),
            },
    {
        match self.selection {
            Selection::State(id) => {
                let ghost old_m = self.machine;
                let ghost old_g = self.states@;
                let name = first_free_name(&self.states, id as usize, &self.states[id as usize].name);
                rename_state(&mut self.states, id as usize, name.clone());
                rename_machine_state(&mut self.machine, id as usize, name);
                self.selection = Selection::Nothing;
                proof {
                    let m = self.machine;
                    let g = self.states@;
                    assert forall|i: int| 0 <= i < m.states@.len() implies #[trigger] m.states@[i].rules@
                        == old_m.states@[i].rules@ by {
                    }
                    assert forall|i: int| 0 <= i < g.len() implies #[trigger] g[i].transitions
                        == old_g[i].transitions && g[i].id == old_g[i].id by {
                    }
                    assert forall|i: int, k: int|
                        0 <= i < m.states@.len() && 0 <= k < m.states@[i].rules@.len() implies (
                        #[trigger] m.states@[i].rules@[k]).target < m.states@.len() by {
                        assert(m.states@[i].rules@ == old_m.states@[i].rules@);
                    }
                    assert forall|i: int| 0 <= i < g.len() implies transitions_mirror(
                        #[trigger] g[i].transitions@,
                        m,
                        i,
                    ) by {
                        assert(g[i].transitions == old_g[i].transitions);
                        assert(transitions_mirror(old_g[i].transitions@, old_m, i));
                        assert(m.states@[i].rules@ == old_m.states@[i].rules@);
                    }
                    assert forall|i: int, k: int|
                        0 <= i < g.len() && 0 <= k < g[i].transitions@.len() implies (
                        #[trigger] g[i].transitions@[k]).id == k && g[i].transitions@[k].parent_id
                        == i by {
                        assert(g[i].transitions == old_g[i].transitions);
                    }
                }
            },
            _ => {},
        }
    }

    /// A click on the empty canvas clears the selection.
    pub fn click_canvas(&mut self)
        ensures
            final(self).selection == Selection::Nothing,
            final(self).machine == old(self).machine,
            final(self).states == old(self).states,
            final(self).code == old(self).code,
    {
        self.selection = Selection::Nothing;
    }

    /// A click on the label of transition `id` of state `parent` selects
    /// that transition, and no state.
    pub fn click_transition(&mut self, parent: u8, id: u8)
        ensures
            final(self).selection == Selection::Transition(parent, id),
            final(self).machine == old(self).machine,
            final(self).states == old(self).states,
            final(self).code == old(self).code,
    {
        self.selection = Selection::Transition(parent, id);
    }

    /// Writes the rule text of the diagram (see `graph_to_rules`) into
    /// `code`. On a consistent session this always succeeds; on `Desync`
    /// nothing changes.
    pub fn graph_to_code(&mut self) -> (r: Result<(), EditError>)
        ensures
            r.is_ok() <==> targets_resolve(old(self).states@, old(self).machine),
            old(self).wf() ==> r.is_ok(),
            r.is_err() ==> r == Err::<(), EditError>(EditError::Desync) && *final(self) == *old(self),
            r.is_ok() ==> final(self).code@ == rules_text(old(self).states@, old(self).machine)
                && final(self).machine == old(self).machine && final(self).states == old(self).states
                && final(self).selection == old(self).selection,
    {
        proof {
            if self.wf() {
                assert forall|i: int, k: int|
                    0 <= i < self.states@.len() && 0 <= k < self.states@[i].transitions@.len() implies (
                    #[trigger] self.states@[i].transitions@[k]).target_id < self.machine.states@.len() by {
                    assert(transitions_mirror(self.states@[i].transitions@, self.machine, i));
                }
            }
        }
        match graph_to_rules(&self.states, &self.machine) {
            Ok(text) => {
                self.code = text;
                Ok(())
            },
            Err(e) => Err(e),
        }
    }

    /// Rebuilds the diagram from the machine (see `rules_to_graph`), which
    /// discards the former diagram, and clears the selection. On `Desync`
    /// nothing changes.
    pub fn code_to_graph(&mut self) -> (r: Result<(), EditError>)
        ensures
            r.is_ok() <==> machine_wf(old(self).machine),
            r.is_err() ==> r == Err::<(), EditError>(EditError::Desync) && *final(self) == *old(self),
            r.is_ok() ==> {
                &&& final(self).wf()
                &&& crate::graph::mirrors(final(self).states@, final(self).machine)
                &&& final(self).machine == old(self).machine
                &&& final(self).selection == Selection::Nothing
                &&& final(self).code == old(self).code
                &&& forall|i: int| 0 <= i < final(self).states@.len() ==> (#[trigger] final(self).states@[i]).color
                    == Constant::spec_primary_color()
            },
    {
        match rules_to_graph(&self.machine) {
            Ok(g) => {
                self.states = g;
                self.selection = Selection::Nothing;
                proof {
                    assert forall|i: int| 0 <= i < self.states@.len() implies transitions_mirror(
                        #[trigger] self.states@[i].transitions@,
                        self.machine,
                        i,
                    ) by {
                        assert(self.states@[i].name@ == self.machine.states@[i].name@);
                    }
                }
                Ok(())
            },
            Err(e) => Err(e),
        }
    }

    /// Installs the machine that the rule text was turned into, `None` when
    /// that failed, and rebuilds the diagram from it. A failed turn is
    /// `Compile`, a machine the diagram cannot mirror is `Desync`; either
    /// way the session is left as it was.
    pub fn compile(&mut self, parsed: Option<Machine>) -> (r: Result<(), EditError>)
        ensures
            parsed.is_none() ==> r == Err::<(), EditError>(EditError::Compile),
            parsed.is_some() ==> (r.is_ok() <==> machine_wf(parsed.unwrap())),
            parsed.is_some() && r.is_err() ==> r == Err::<(), EditError>(EditError::Desync),
            r.is_err() ==> *final(self) == *old(self),
            r.is_ok() ==> {
                &&& final(self).wf()
                &&& final(self).machine == parsed.unwrap()
                &&& crate::graph::mirrors(final(self).states@, final(self).machine)
                &&& final(self).selection == Selection::Nothing
                &&& final(self).code == old(self).code
            },
    {
        match parsed {
            None => Err(EditError::Compile),
            Some(m) => {
                match rules_to_graph(&m) {
                    Ok(g) => {
                        self.machine = m;
                        self.states = g;
                        self.selection = Selection::Nothing;
                        proof {
                            assert forall|i: int| 0 <= i < self.states@.len() implies transitions_mirror(
                                #[trigger] self.states@[i].transitions@,
                                self.machine,
                                i,
                            ) by {
                                assert(self.states@[i].name@ == self.machine.states@[i].name@);
                            }
                        }
                        Ok(())
                    },
                    Err(e) => Err(e),
                }
            },
        }
    }
}


fn set_transition_text_at(states: &mut Vec<State>, p: usize, k: usize, text: String)
    requires
        p < old(states)@.len(),
        k < old(states)@[p as int].transitions@.len(),
    ensures
        final(states)@.len() == old(states)@.len(),
        forall|q: int| 0 <= q < old(states)@.len() && q != p ==> final(states)@[q] == old(states)@[q],
        final(states)@[p as int].id == old(states)@[p as int].id,
        final(states)@[p as int].name == old(states)@[p as int].name,
        final(states)@[p as int].color == old(states)@[p as int].color,
        final(states)@[p as int].transitions@ == old(states)@[p as int].transitions@.update(
            k as int,
            Transition {
                text,
                id: old(states)@[p as int].transitions@[k as int].id,
                parent_id: old(states)@[p as int].transitions@[k as int].parent_id,
                target_id: old(states)@[p as int].transitions@[k as int].target_id,
            },
        ),
{
    let mut st = states.remove(p);
    let mut t = st.transitions.remove(k);
    t.text = text;
    st.transitions.insert(k, t);
    states.insert(p, st);
    assert(states@[p as int].transitions@ =~= old(states)@[p as int].transitions@.update(
        k as int,
        Transition {
            text,
            id: old(states)@[p as int].transitions@[k as int].id,
            parent_id: old(states)@[p as int].transitions@[k as int].parent_id,
            target_id: old(states)@[p as int].transitions@[k as int].target_id,
        },
    ));
}

fn set_rule_text_at(m: &mut Machine, p: usize, k: usize, text: String)
    requires
        p < old(m).states@.len(),
        k < old(m).states@[p as int].rules@.len(),
    ensures
        final(m).tracks == old(m).tracks,
        final(m).states@.len() == old(m).states@.len(),
        forall|q: int| 0 <= q < old(m).states@.len() && q != p ==> final(m).states@[q] == old(m).states@[q],
        final(m).states@[p as int].name == old(m).states@[p as int].name,
        final(m).states@[p as int].rules@ == old(m).states@[p as int].rules@.update(
            k as int,
            Rule { text, target: old(m).states@[p as int].rules@[k as int].target },
        ),
{
    let mut st = m.states.remove(p);
    let mut r = st.rules.remove(k);
    r.text = text;
    st.rules.insert(k, r);
    m.states.insert(p, st);
    assert(m.states@[p as int].rules@ =~= old(m).states@[p as int].rules@.update(
        k as int,
        Rule { text, target: old(m).states@[p as int].rules@[k as int].target },
    ));
}

impl Editor {
    /// Whether the session is consistent (see `wf`).
    pub fn is_consistent(&self) -> (r: bool)
        ensures
            r == self.wf(),
    {
        if !crate::sync::machine_is_consistent(&self.machine) {
            return false;
        }
        let n = self.states.len();
        if n > 256 || n != self.machine.states.len() {
            return false;
        }
        let mut i: usize = 0;
        while i < n
            invariant
                n == self.states@.len(),
                n == self.machine.states@.len(),
                n <= 256,
                i <= n,
                forall|p: int| 0 <= p < i ==> (#[trigger] self.states@[p]).id == p
                    && self.states@[p].transitions@.len() <= 256,
                forall|p: int, k: int|
                    0 <= p < i && 0 <= k < self.states@[p].transitions@.len() ==> (
                    #[trigger] self.states@[p].transitions@[k]).id == k
                        && self.states@[p].transitions@[k].parent_id == p,
                forall|p: int| 0 <= p < i ==> transitions_mirror(
                    #[trigger] self.states@[p].transitions@,
                    self.machine,
                    p,
                ),
            decreases n - i,
        {
            let st = &self.states[i];
            let rules = &self.machine.states[i].rules;
            if st.id as usize != i || st.transitions.len() > 256 || st.transitions.len() != rules.len() {
                return false;
            }
            let mut k: usize = 0;
            while k < st.transitions.len()
                invariant
                    n == self.states@.len(),
                    i < n,
                    st == self.states@[i as int],
                    rules == self.machine.states@[i as int].rules,
                    st.transitions@.len() == rules@.len(),
                    k <= st.transitions@.len(),
                    forall|q: int| 0 <= q < k ==> (#[trigger] st.transitions@[q]).id == q
                        && st.transitions@[q].parent_id == i && st.transitions@[q].text@
                        == rules@[q].text@ && st.transitions@[q].target_id == rules@[q].target,
                decreases st.transitions@.len() - k,
            {
                let t = &st.transitions[k];
                if t.id as usize != k || t.parent_id as usize != i || t.text != rules[k].text
                    || t.target_id != rules[k].target {
                    return false;
                }
                k = k + 1;
            }
            i = i + 1;
        }
        match self.selection {
            Selection::State(s) => (s as usize) < n,
            _ => true,
        }
    }

    /// Replaces the text of transition `id` of state `parent`, in the
    /// diagram and in the machine alike. `Desync`, changing nothing, when
    /// there is no such transition.
    pub fn set_transition_text(&mut self, parent: u8, id: u8, text: String) -> (r: Result<
        (),
        EditError,
    >)
        requires
            old(self).wf(),
        ensures
            final(self).wf(),
            r.is_ok() <==> (parent < old(self).states@.len() && id < old(
                self,
            ).states@[parent as int].transitions@.len()),
            r.is_err() ==> r == Err::<(), EditError>(EditError::Desync) && *final(self) == *old(self),
            r.is_ok() ==> {
                let t = old(self).states@[parent as int].transitions@[id as int];
                let rule = old(self).machine.states@[parent as int].rules@[id as int];
                &&& final(self).states@[parent as int].transitions@ == old(
                    self,
                ).states@[parent as int].transitions@.update(
                    id as int,
                    Transition { text, id: t.id, parent_id: t.parent_id, target_id: t.target_id },
                )
                &&& final(self).machine.states@[parent as int].rules@ == old(
                    self,
                ).machine.states@[parent as int].rules@.update(
                    id as int,
                    Rule { text: final(self).machine.states@[parent as int].rules@[id as int].text, target: rule.target },
                )
                &&& final(self).machine.states@[parent as int].rules@[id as int].text@ == text@
                &&& forall|q: int|
                    0 <= q < old(self).states@.len() && q != parent ==> final(self).states@[q]
                        == old(self).states@[q] && final(self).machine.states@[q]
                        == old(self).machine.states@[q]
                &&& final(self).states@.len() == old(self).states@.len()
                &&& final(self).machine.states@.len() == old(self).machine.states@.len()
                &&& final(self).machine.tracks == old(self).machine.tracks
                &&& final(self).states@[parent as int].name == old(self).states@[parent as int].name
                &&& final(self).machine.states@[parent as int].name == old(
                    self,
                ).machine.states@[parent as int].name
                &&& final(self).selection == old(self).selection
                &&& final(self).code == old(self).code
            },
    {
        if parent as usize >= self.states.len() || id as usize >= self.states[parent as usize].transitions.len() {
            return Err(EditError::Desync);
        }
        let ghost old_m = self.machine;
        let ghost old_g = self.states@;
        proof {
            assert(transitions_mirror(old_g[parent as int].transitions@, old_m, parent as int));
        }
        set_rule_text_at(&mut self.machine, parent as usize, id as usize, text.clone());
        set_transition_text_at(&mut self.states, parent as usize, id as usize, text);
        proof {
            let m = self.machine;
            let g = self.states@;
            assert forall|i: int| 0 <= i < m.states@.len() implies #[trigger] m.states@[i].rules@.len()
                == old_m.states@[i].rules@.len() by {
            }
            assert forall|i: int, k: int|
                0 <= i < m.states@.len() && 0 <= k < m.states@[i].rules@.len() implies (
                #[trigger] m.states@[i].rules@[k]).target == old_m.states@[i].rules@[k].target by {
                if i != parent {
                    assert(m.states@[i] == old_m.states@[i]);
                }
            }
            assert forall|i: int, k: int|
                0 <= i < g.len() && 0 <= k < g[i].transitions@.len() implies (
                #[trigger] g[i].transitions@[k]).id == k && g[i].transitions@[k].parent_id == i by {
                if i != parent {
                    assert(g[i] == old_g[i]);
                }
            }
            assert forall|i: int| 0 <= i < g.len() implies (#[trigger] g[i]).id == i
                && g[i].transitions@.len() <= 256 by {
                if i != parent {
                    assert(g[i] == old_g[i]);
                }
            }
            assert forall|i: int| 0 <= i < g.len() implies transitions_mirror(
                #[trigger] g[i].transitions@,
                m,
                i,
            ) by {
                assert(transitions_mirror(old_g[i].transitions@, old_m, i));
                if i != parent {
                    assert(g[i] == old_g[i]);
                    assert(m.states@[i] == old_m.states@[i]);
                } else {
                    assert forall|k: int| 0 <= k < g[i].transitions@.len() implies (
                    #[trigger] g[i].transitions@[k]).text@ == m.states@[i].rules@[k].text@
                        && g[i].transitions@[k].target_id == m.states@[i].rules@[k].target by {
                        if k != id {
                            assert(g[i].transitions@[k] == old_g[i].transitions@[k]);
                            assert(m.states@[i].rules@[k] == old_m.states@[i].rules@[k]);
                        }
                    }
                }
            }
        }
        Ok(())
    }
}

} // verus!
