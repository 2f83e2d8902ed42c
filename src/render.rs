//! What the diagram draws as edges: the transitions grouped by source and
//! target state, one curve per group, with the flag that separates the two
//! curves of a pair of states joined both ways.

use vstd::prelude::*;
use crate::graph::{EditError, State};
use crate::machine::{spec_has_rule, Machine};

verus! {

/// The transitions from state `from` to state `to`, by id, and whether the
/// curve bows the other way.
#[derive(Debug)]
pub struct EdgeGroup {
    pub from: u8,
    pub to: u8,
    pub transitions: Vec<u8>,
    pub reverse: bool,
}

/// An edge group as plain values.
pub type EdgeView = (int, int, Seq<u8>, bool);

pub open spec fn edge_view(e: EdgeGroup) -> EdgeView {
    (e.from as int, e.to as int, e.transitions@, e.reverse)
}

/// The state that transition `k` of state `i` leads to, read from the
/// machine's rule with the transition's id.
pub open spec fn edge_target(g: Seq<State>, m: Machine, i: int, k: int) -> int {
    m.states@[i].rules@[g[i].transitions@[k].id as int].target as int
}

/// Every transition names a rule of the machine, and that rule leads to a
/// state of the diagram.
pub open spec fn edges_resolve(g: Seq<State>, m: Machine) -> bool {
    &&& g.len() <= 256
    &&& g.len() <= m.states@.len()
    &&& forall|i: int, k: int|
        0 <= i < g.len() && 0 <= k < g[i].transitions@.len() ==> (
        #[trigger] g[i].transitions@[k]).id < m.states@[i].rules@.len() && edge_target(g, m, i, k)
            < g.len()
}

/// The ids, in order, of those of the first `kk` transitions of state `i`
/// that lead to `to`.
pub open spec fn edge_members(g: Seq<State>, m: Machine, i: int, to: int, kk: int) -> Seq<u8>
    decreases kk,
{
    if kk <= 0 {
        Seq::empty()
    } else {
        let prev = edge_members(g, m, i, to, kk - 1);
        if edge_target(g, m, i, kk - 1) == to {
            prev.push(g[i].transitions@[kk - 1].id)
        } else {
            prev
        }
    }
}

/// Of two states joined both ways, the curve from the lower to the higher
/// index is flipped, so that the two curves do not overlap.
pub open spec fn reverse_flag(m: Machine, from: int, to: int) -> bool {
    from != to && spec_has_rule(m, to, from) && to > from
}

/// The groups of state `i` with a target below `tt`, by target.
pub open spec fn row_plan(g: Seq<State>, m: Machine, i: int, tt: int) -> Seq<EdgeView>
    decreases tt,
{
    if tt <= 0 {
        Seq::empty()
    } else {
        let prev = row_plan(g, m, i, tt - 1);
        let members = edge_members(g, m, i, tt - 1, g[i].transitions@.len() as int);
        if members.len() > 0 {
            prev.push((i, tt - 1, members, reverse_flag(m, i, tt - 1)))
        } else {
            prev
        }
    }
}

/// The groups of the states below `ii`, by source and then by target.
pub open spec fn edge_plan(g: Seq<State>, m: Machine, ii: int) -> Seq<EdgeView>
    decreases ii,
{
    if ii <= 0 {
        Seq::empty()
    } else {
        edge_plan(g, m, ii - 1) + row_plan(g, m, ii - 1, g.len() as int)
    }
}

/// The edges to draw: for each pair (source, target) in increasing order
/// that has transitions, their ids in order and the reverse flag (see
/// `reverse_flag`). Fails with `Desync` when a transition does not resolve
/// through the machine (see `edges_resolve`).
pub fn plan_edges(states: &Vec<State>, m: &Machine) -> (r: Result<Vec<EdgeGroup>, EditError>)
    ensures
        r.is_ok() <==> edges_resolve(states@, *m),
        r.is_err() ==> r == Err::<Vec<EdgeGroup>, EditError>(EditError::Desync),
        r.is_ok() ==> r.unwrap()@.map_values(|e: EdgeGroup| edge_view(e)) == edge_plan(
            states@,
            *m,
            states@.len() as int,
        ),
{
    let n = states.len();
    if n > 256 || n > m.states.len() {
        return Err(EditError::Desync);
    }
    let mut i: usize = 0;
    while i < n
        invariant
            n == states@.len(),
            n <= 256,
            n <= m.states@.len(),
            i <= n,
            forall|p: int, k: int|
                0 <= p < i && 0 <= k < states@[p].transitions@.len() ==> (
                #[trigger] states@[p].transitions@[k]).id < m.states@[p].rules@.len() && edge_target(
                    states@,
                    *m,
                    p,
                    k,
                ) < n,
        decreases n - i,
    {
        let ts = &states[i].transitions;
        let rules = &m.states[i].rules;
        let mut k: usize = 0;
        while k < ts.len()
            invariant
                n == states@.len(),
                n <= m.states@.len(),
                i < n,
                ts == states@[i as int].transitions,
                rules == m.states@[i as int].rules,
                k <= ts@.len(),
                forall|q: int|
                    0 <= q < k ==> (#[trigger] ts@[q]).id < rules@.len() && edge_target(
                        states@,
                        *m,
                        i as int,
                        q,
                    ) < n,
            decreases ts@.len() - k,
        {
            let id = ts[k].id as usize;
            if id >= rules.len() || rules[id].target as usize >= n {
                return Err(EditError::Desync);
            }
            k = k + 1;
        }
        i = i + 1;
    }
    let mut out: Vec<EdgeGroup> = Vec::new();
    let mut i: usize = 0;
    while i < n
        invariant
            n == states@.len(),
            n <= 256,
            edges_resolve(states@, *m),
            i <= n,
            out@.map_values(|e: EdgeGroup| edge_view(e)) == edge_plan(states@, *m, i as int),
        decreases n - i,
    {
        let ts = &states[i].transitions;
        let rules = &m.states[i].rules;
        let ghost before_row = out@.map_values(|e: EdgeGroup| edge_view(e));
        let mut to: usize = 0;
        while to < n
            invariant
                n == states@.len(),
                n <= 256,
                edges_resolve(states@, *m),
                i < n,
                to <= n,
                ts == states@[i as int].transitions,
                rules == m.states@[i as int].rules,
                before_row == edge_plan(states@, *m, i as int),
                out@.map_values(|e: EdgeGroup| edge_view(e)) == before_row + row_plan(
                    states@,
                    *m,
                    i as int,
                    to as int,
                ),
            decreases n - to,
        {
            let mut members: Vec<u8> = Vec::new();
            let mut k: usize = 0;
            while k < ts.len()
                invariant
                    n == states@.len(),
                    edges_resolve(states@, *m),
                    i < n,
                    to < n,
                    ts == states@[i as int].transitions,
                    rules == m.states@[i as int].rules,
                    k <= ts@.len(),
                    members@ == edge_members(states@, *m, i as int, to as int, k as int),
                decreases ts@.len() - k,
            {
                let id = ts[k].id;
                if rules[id as usize].target as usize == to {
                    members.push(id);
                }
                k = k + 1;
            }
            let ghost prev_out = out@.map_values(|e: EdgeGroup| edge_view(e));
            if members.len() > 0 {
                let reverse = i != to && to > i && m.has_rule(to as u8, i as u8);
                out.push(EdgeGroup { from: i as u8, to: to as u8, transitions: members, reverse });
                assert(out@.map_values(|e: EdgeGroup| edge_view(e)) =~= prev_out.push(
                    edge_view(out@.last()),
                ));
            }
            assert(out@.map_values(|e: EdgeGroup| edge_view(e)) =~= before_row + row_plan(
                states@,
                *m,
                i as int,
                to as int + 1,
            ));
            to = to + 1;
        }
        i = i + 1;
    }
    Ok(out)
}

} // verus!
