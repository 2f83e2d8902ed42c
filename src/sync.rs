//! Conversion between the machine and the diagram, in both directions.

use vstd::prelude::*;
use crate::constant::Constant;
use crate::graph::{graph_wf, mirrors, transitions_mirror, EditError, State, Transition};
use crate::machine::{index_range_ok, machine_wf, targets_ok, Machine};

verus! {

/// Whether the diagram can mirror `m`: ids fit and every rule leads to an
/// existing state.
pub fn machine_is_consistent(m: &Machine) -> (r: bool)
    ensures
        r == machine_wf(*m),
{
    let n = m.states.len();
    if n > 256 {
        return false;
    }
    let mut i: usize = 0;
    while i < n
        invariant
            n == m.states@.len(),
            n <= 256,
            i <= n,
            forall|p: int| 0 <= p < i ==> #[trigger] m.states@[p].rules@.len() <= 256,
            forall|p: int, k: int|
                0 <= p < i && 0 <= k < m.states@[p].rules@.len() ==> (
                #[trigger] m.states@[p].rules@[k]).target < n,
        decreases n - i,
    {
        let rules = &m.states[i].rules;
        if rules.len() > 256 {
            return false;
        }
        let mut k: usize = 0;
        while k < rules.len()
            invariant
                n == m.states@.len(),
                i < n,
                rules == m.states@[i as int].rules,
                k <= rules@.len(),
                forall|q: int| 0 <= q < k ==> (#[trigger] rules@[q]).target < n,
            decreases rules@.len() - k,
        {
            if rules[k].target as usize >= n {
                return false;
            }
            k = k + 1;
        }
        i = i + 1;
    }
    true
}

/// Rebuilds the diagram from the machine, state by state in index order:
/// state `i` gets id `i`, the machine's name, the primary color, and one
/// transition per rule with the rule's index, text and target. Fails with
/// `Desync`, building nothing, when the machine is not consistent.
pub fn rules_to_graph(m: &Machine) -> (r: Result<Vec<State>, EditError>)
    ensures
        r.is_ok() <==> machine_wf(*m),
        r.is_err() ==> r == Err::<Vec<State>, EditError>(EditError::Desync),
        r.is_ok() ==> {
            let g = r.unwrap()@;
            &&& graph_wf(g)
            &&& mirrors(g, *m)
            &&& forall|i: int| 0 <= i < g.len() ==> (#[trigger] g[i]).color
                == Constant::spec_primary_color()
        },
{
    if !machine_is_consistent(m) {
        return Err(EditError::Desync);
    }
    let n = m.states.len();
    let mut g: Vec<State> = Vec::new();
    let mut i: usize = 0;
    while i < n
        invariant
            n == m.states@.len(),
            machine_wf(*m),
            i <= n,
            g@.len() == i,
            forall|p: int| 0 <= p < i ==> (#[trigger] g@[p]).id == p && g@[p].transitions@.len() <= 256
                && g@[p].color == Constant::spec_primary_color(),
            forall|p: int, k: int|
                0 <= p < i && 0 <= k < g@[p].transitions@.len() ==> (
                #[trigger] g@[p].transitions@[k]).id == k && g@[p].transitions@[k].parent_id == p,
            forall|p: int|
                0 <= p < i ==> (#[trigger] g@[p]).name@ == m.states@[p].name@ && transitions_mirror(
                    g@[p].transitions@,
                    *m,
                    p,
                ),
        decreases n - i,
    {
        let st = &m.states[i];
        proof {
            assert(index_range_ok(*m));
            assert(st.rules@.len() <= 256);
        }
        let mut ts: Vec<Transition> = Vec::new();
        let mut k: usize = 0;
        while k < st.rules.len()
            invariant
                n == m.states@.len(),
                n <= 256,
                i < n,
                st == m.states@[i as int],
                st.rules@.len() <= 256,
                k <= st.rules@.len(),
                ts@.len() == k,
                forall|q: int|
                    0 <= q < k ==> (#[trigger] ts@[q]).id == q && ts@[q].parent_id == i
                        && ts@[q].text@ == st.rules@[q].text@ && ts@[q].target_id
                        == st.rules@[q].target,
            decreases st.rules@.len() - k,
        {
            let rule = &st.rules[k];
            ts.push(
                Transition {
                    text: rule.text.clone(),
                    id: k as u8,
                    parent_id: i as u8,
                    target_id: rule.target,
                },
            );
            k = k + 1;
        }
        g.push(
            State { id: i as u8, name: st.name.clone(), color: Constant::primary_color(), transitions: ts },
        );
        i = i + 1;
    }
    Ok(g)
}


/// A statement of the rule text: source name, target name, rule texts.
pub type Group = (Seq<char>, Seq<char>, Seq<Seq<char>>);

/// One transition as the rule text sees it: source name, target name, text.
pub type Entry = (Seq<char>, Seq<char>, Seq<char>);

/// The names of the machine's states, by index.
pub open spec fn machine_names(m: Machine) -> Seq<Seq<char>> {
    m.states@.map_values(|s: crate::machine::MachineState| s.name@)
}

/// Every transition of the diagram leads to a state that the machine has.
pub open spec fn targets_resolve(g: Seq<State>, m: Machine) -> bool {
    forall|i: int, k: int|
        0 <= i < g.len() && 0 <= k < g[i].transitions@.len() ==> (
        #[trigger] g[i].transitions@[k]).target_id < m.states@.len()
}

/// The transitions of one state, in order, as entries; targets are named
/// through `names`.
pub open spec fn state_entries(s: State, names: Seq<Seq<char>>) -> Seq<Entry> {
    Seq::new(
        s.transitions@.len(),
        |k: int|
            (s.name@, names[s.transitions@[k].target_id as int], s.transitions@[k].text@),
    )
}

/// All transitions of the diagram, state by state, as entries.
pub open spec fn graph_entries(g: Seq<State>, names: Seq<Seq<char>>) -> Seq<Entry>
    decreases g.len(),
{
    if g.len() == 0 {
        Seq::empty()
    } else {
        graph_entries(g.drop_last(), names) + state_entries(g.last(), names)
    }
}

/// Some group has the key `(a, b)`.
pub open spec fn has_group(gs: Seq<Group>, a: Seq<char>, b: Seq<char>) -> bool {
    exists|j: int| 0 <= j < gs.len() && (#[trigger] gs[j]).0 == a && gs[j].1 == b
}

/// The index of the group with key `(a, b)`, or -1.
pub open spec fn find_group(gs: Seq<Group>, a: Seq<char>, b: Seq<char>) -> int {
    if has_group(gs, a, b) {
        choose|j: int| 0 <= j < gs.len() && (#[trigger] gs[j]).0 == a && gs[j].1 == b
    } else {
        -1
    }
}

/// No two groups share a key.
pub open spec fn keys_distinct(gs: Seq<Group>) -> bool {
    forall|i: int, j: int|
        0 <= i < gs.len() && 0 <= j < gs.len() && i != j ==> !((#[trigger] gs[i]).0 == (
        #[trigger] gs[j]).0 && gs[i].1 == gs[j].1)
}

/// Files entry `e` under its key: appended to its group, or as a new group
/// at the end.
pub open spec fn add_entry(gs: Seq<Group>, e: Entry) -> Seq<Group> {
    let j = find_group(gs, e.0, e.1);
    if j >= 0 {
        gs.update(j, (gs[j].0, gs[j].1, gs[j].2.push(e.2)))
    } else {
        gs.push((e.0, e.1, seq![e.2]))
    }
}

/// Entries grouped by key, groups in order of first appearance, texts in
/// order within a group.
pub open spec fn group_entries(es: Seq<Entry>) -> Seq<Group>
    decreases es.len(),
{
    if es.len() == 0 {
        Seq::empty()
    } else {
        add_entry(group_entries(es.drop_last()), es.last())
    }
}

/// The texts of the entries with key `(a, b)`, in order.
pub open spec fn texts_with_key(es: Seq<Entry>, a: Seq<char>, b: Seq<char>) -> Seq<Seq<char>>
    decreases es.len(),
{
    if es.len() == 0 {
        Seq::empty()
    } else if es.last().0 == a && es.last().1 == b {
        texts_with_key(es.drop_last(), a, b).push(es.last().2)
    } else {
        texts_with_key(es.drop_last(), a, b)
    }
}

/// `parts` with `sep` between consecutive parts.
pub open spec fn join_with(parts: Seq<Seq<char>>, sep: Seq<char>) -> Seq<char>
    decreases parts.len(),
{
    if parts.len() == 0 {
        Seq::empty()
    } else if parts.len() == 1 {
        parts[0]
    } else {
        join_with(parts.drop_last(), sep) + sep + parts.last()
    }
}

pub open spec fn rule_separator() -> Seq<char> {
    seq![' ', '|', ' ']
}

pub open spec fn statement_separator() -> Seq<char> {
    seq!['\n', '\n']
}

/// `q_<source> {<rule> | <rule> | …} q_<target>;`
pub open spec fn statement(gr: Group) -> Seq<char> {
    seq!['q', '_'] + gr.0 + seq![' ', '{'] + join_with(gr.2, rule_separator()) + seq![
        '}',
        ' ',
        'q',
        '_',
    ] + gr.1 + seq![';']
}

/// The rule text of the diagram: one statement per (source, target) pair of
/// names, in order of first appearance, separated by a blank line.
pub open spec fn rules_text(g: Seq<State>, m: Machine) -> Seq<char> {
    join_with(
        group_entries(graph_entries(g, machine_names(m))).map_values(|gr: Group| statement(gr)),
        statement_separator(),
    )
}

proof fn lemma_add_entry_keys(gs: Seq<Group>, e: Entry)
    requires
        keys_distinct(gs),
    ensures
        keys_distinct(add_entry(gs, e)),
        has_group(add_entry(gs, e), e.0, e.1),
        forall|a: Seq<char>, b: Seq<char>|
            has_group(gs, a, b) ==> #[trigger] has_group(add_entry(gs, e), a, b),
{
    let r = add_entry(gs, e);
    let j = find_group(gs, e.0, e.1);
    if j >= 0 {
        assert(r[j].0 == e.0 && r[j].1 == e.1);
        assert forall|a: Seq<char>, b: Seq<char>| has_group(gs, a, b) implies #[trigger] has_group(
            r,
            a,
            b,
        ) by {
            let q = choose|q: int| 0 <= q < gs.len() && (#[trigger] gs[q]).0 == a && gs[q].1 == b;
            assert(r[q].0 == a && r[q].1 == b);
        }
    } else {
        assert(r[gs.len() as int].0 == e.0);
        assert forall|a: Seq<char>, b: Seq<char>| has_group(gs, a, b) implies #[trigger] has_group(
            r,
            a,
            b,
        ) by {
            let q = choose|q: int| 0 <= q < gs.len() && (#[trigger] gs[q]).0 == a && gs[q].1 == b;
            assert(r[q].0 == a && r[q].1 == b);
        }
    }
}

/// What the grouping does with each entry: groups have distinct keys, every
/// entry's key has a group, and each group holds exactly the texts of the
/// entries with its key, in order.
pub proof fn lemma_group_entries(es: Seq<Entry>)
    ensures
        keys_distinct(group_entries(es)),
        forall|q: int| 0 <= q < es.len() ==> has_group(group_entries(es), (#[trigger] es[q]).0, es[q].1),
        forall|j: int|
            0 <= j < group_entries(es).len() ==> (#[trigger] group_entries(es)[j]).2 == texts_with_key(
                es,
                group_entries(es)[j].0,
                group_entries(es)[j].1,
            ),
        forall|a: Seq<char>, b: Seq<char>|
            !has_group(group_entries(es), a, b) ==> #[trigger] texts_with_key(es, a, b) =~= Seq::<
                Seq<char>,
            >::empty(),
    decreases es.len(),
{
    if es.len() > 0 {
        let prev = es.drop_last();
        let e = es.last();
        let gs = group_entries(prev);
        lemma_group_entries(prev);
        lemma_add_entry_keys(gs, e);
        let r = group_entries(es);
        assert(r == add_entry(gs, e));
        assert forall|q: int| 0 <= q < es.len() implies has_group(r, (#[trigger] es[q]).0, es[q].1) by {
            if q < es.len() - 1 {
                assert(prev[q] == es[q]);
            }
        }
        let j = find_group(gs, e.0, e.1);
        assert forall|t: int| 0 <= t < r.len() implies (#[trigger] r[t]).2 == texts_with_key(
            es,
            r[t].0,
            r[t].1,
        ) by {
            if j >= 0 {
                if t != j {
                    assert(!(gs[t].0 == e.0 && gs[t].1 == e.1));
                }
            } else if t < gs.len() {
                assert(!(gs[t].0 == e.0 && gs[t].1 == e.1));
            } else {
                assert(!has_group(gs, e.0, e.1));
                assert(texts_with_key(prev, e.0, e.1) =~= Seq::<Seq<char>>::empty());
            }
        }
        assert forall|a: Seq<char>, b: Seq<char>| !has_group(r, a, b) implies #[trigger] texts_with_key(
            es,
            a,
            b,
        ) =~= Seq::<Seq<char>>::empty() by {
            if has_group(gs, a, b) {
                assert(has_group(add_entry(gs, e), a, b));
            }
            assert(!(e.0 == a && e.1 == b));
            assert(texts_with_key(prev, a, b) =~= Seq::<Seq<char>>::empty());
            assert(texts_with_key(es, a, b) == texts_with_key(prev, a, b));
        }
    }
}


/// Relies on `itertools::join`: each part written in turn, `sep` between two
/// consecutive parts, the empty string for no parts.
#[verifier::external_body]
fn join_strings(parts: &Vec<String>, sep: &str) -> (r: String)
    ensures
        r@ == join_with(parts@.map_values(|s: String| s@), sep@),
{
    itertools::join(parts.iter(), sep)
}

/// A group while the text is being built.
struct GroupBuf {
    source: String,
    target: String,
    rules: Vec<String>,
}

spec fn buf_view(b: GroupBuf) -> Group {
    (b.source@, b.target@, b.rules@.map_values(|s: String| s@))
}

spec fn bufs_view(v: Seq<GroupBuf>) -> Seq<Group> {
    v.map_values(|b: GroupBuf| buf_view(b))
}

fn find_buf(bufs: &Vec<GroupBuf>, a: &String, b: &String) -> (r: Option<usize>)
    requires
        keys_distinct(bufs_view(bufs@)),
    ensures
        match r {
            Some(j) => j < bufs@.len() && j == find_group(bufs_view(bufs@), a@, b@),
            None => !has_group(bufs_view(bufs@), a@, b@),
        },
{
    let ghost gs = bufs_view(bufs@);
    let mut j: usize = 0;
    while j < bufs.len()
        invariant
            gs == bufs_view(bufs@),
            keys_distinct(gs),
            j <= bufs@.len(),
            forall|q: int| 0 <= q < j ==> !((#[trigger] gs[q]).0 == a@ && gs[q].1 == b@),
        decreases bufs@.len() - j,
    {
        if bufs[j].source == *a && bufs[j].target == *b {
            proof {
                assert(gs[j as int].0 == a@ && gs[j as int].1 == b@);
                assert(has_group(gs, a@, b@));
                let c = find_group(gs, a@, b@);
                assert(gs[c].0 == a@ && gs[c].1 == b@);
                if c != j as int {
                    assert(!(gs[c].0 == gs[j as int].0 && gs[c].1 == gs[j as int].1));
                }
            }
            return Some(j);
        }
        j = j + 1;
    }
    None
}

fn render_group(b: &GroupBuf) -> (r: String)
    ensures
        r@ == statement(buf_view(*b)),
{
    proof {
        reveal_strlit("q_");
        reveal_strlit(" {");
        reveal_strlit(" | ");
        reveal_strlit("} q_");
        reveal_strlit(";");
    }
    let joined = join_strings(&b.rules, " | ");
    let mut s = String::new();
    s.append("q_");
    s.append(b.source.as_str());
    s.append(" {");
    s.append(joined.as_str());
    s.append("} q_");
    s.append(b.target.as_str());
    s.append(";");
    assert(" | "@ =~= rule_separator());
    assert("q_"@ =~= seq!['q', '_']);
    assert(" {"@ =~= seq![' ', '{']);
    assert("} q_"@ =~= seq!['}', ' ', 'q', '_']);
    assert(";"@ =~= seq![';']);
    assert(s@ =~= statement(buf_view(*b)));
    s
}

proof fn lemma_graph_entries_step(g: Seq<State>, names: Seq<Seq<char>>, i: int)
    requires
        0 <= i < g.len(),
    ensures
        graph_entries(g.take(i + 1), names) == graph_entries(g.take(i), names) + state_entries(
            g[i],
            names,
        ),
{
    assert(g.take(i + 1).drop_last() =~= g.take(i));
}

/// The rule text of the diagram (see `rules_text`): transitions grouped by
/// the names of their source and target, target names read from the
/// machine's current state list. Fails with `Desync` when a transition
/// leads to a state index that the machine does not have.
pub fn graph_to_rules(states: &Vec<State>, m: &Machine) -> (r: Result<String, EditError>)
    ensures
        r.is_ok() <==> targets_resolve(states@, *m),
        r.is_err() ==> r == Err::<String, EditError>(EditError::Desync),
        r.is_ok() ==> r.unwrap()@ == rules_text(states@, *m),
{
    let ghost names = machine_names(*m);
    let n = m.states.len();
    let mut bufs: Vec<GroupBuf> = Vec::new();
    let mut i: usize = 0;
    while i < states.len()
        invariant
            n == m.states@.len(),
            names == machine_names(*m),
            i <= states@.len(),
            keys_distinct(bufs_view(bufs@)),
            bufs_view(bufs@) == group_entries(graph_entries(states@.take(i as int), names)),
            forall|p: int, k: int|
                0 <= p < i && 0 <= k < states@[p].transitions@.len() ==> (
                #[trigger] states@[p].transitions@[k]).target_id < n,
        decreases states@.len() - i,
    {
        let st = &states[i];
        let ghost base = graph_entries(states@.take(i as int), names);
        let ghost row = state_entries(states@[i as int], names);
        let mut k: usize = 0;
        while k < st.transitions.len()
            invariant
                n == m.states@.len(),
                names == machine_names(*m),
                i < states@.len(),
                st == states@[i as int],
                base == graph_entries(states@.take(i as int), names),
                row == state_entries(states@[i as int], names),
                k <= st.transitions@.len(),
                keys_distinct(bufs_view(bufs@)),
                bufs_view(bufs@) == group_entries(base + row.take(k as int)),
                forall|p: int, q: int|
                    0 <= p < i && 0 <= q < states@[p].transitions@.len() ==> (
                    #[trigger] states@[p].transitions@[q]).target_id < n,
                forall|q: int| 0 <= q < k ==> (#[trigger] st.transitions@[q]).target_id < n,
            decreases st.transitions@.len() - k,
        {
            let t = &st.transitions[k];
            if t.target_id as usize >= n {
                proof {
                    assert(states@[i as int].transitions@[k as int].target_id >= n);
                }
                return Err(EditError::Desync);
            }
            let tname = &m.states[t.target_id as usize].name;
            let ghost es = base + row.take(k as int);
            let ghost e = row[k as int];
            proof {
                assert(tname@ == names[t.target_id as int]);
                assert(e == (st.name@, tname@, t.text@));
                assert((base + row.take(k as int + 1)) =~= es.push(e));
                assert(es.push(e).drop_last() =~= es);
                lemma_group_entries(es.push(e));
            }
            let ghost old_view = bufs_view(bufs@);
            match find_buf(&bufs, &st.name, tname) {
                Some(j) => {
                    let mut b = bufs.remove(j);
                    let ghost ob = b;
                    b.rules.push(t.text.clone());
                    bufs.insert(j, b);
                    proof {
                        assert(buf_view(ob) == old_view[j as int]);
                        assert(find_group(old_view, e.0, e.1) == j as int);
                        assert(buf_view(b).2 =~= old_view[j as int].2.push(t.text@));
                        assert(bufs_view(bufs@) =~= add_entry(old_view, e));
                    }
                },
                None => {
                    let mut rules: Vec<String> = Vec::new();
                    rules.push(t.text.clone());
                    let nb = GroupBuf { source: st.name.clone(), target: tname.clone(), rules };
                    proof {
                        assert(buf_view(nb).2 =~= seq![e.2]);
                        assert(find_group(old_view, e.0, e.1) == -1);
                    }
                    bufs.push(nb);
                    proof {
                        assert(bufs_view(bufs@) =~= add_entry(old_view, e));
                    }
                },
            }
            k = k + 1;
        }
        proof {
            assert(row.take(k as int) =~= row);
            lemma_graph_entries_step(states@, names, i as int);
        }
        i = i + 1;
    }
    assert(states@.take(i as int) =~= states@);
    let ghost gs = bufs_view(bufs@);
    let mut stmts: Vec<String> = Vec::new();
    let mut j: usize = 0;
    while j < bufs.len()
        invariant
            gs == bufs_view(bufs@),
            j <= bufs@.len(),
            stmts@.len() == j,
            forall|q: int| 0 <= q < j ==> (#[trigger] stmts@[q])@ == statement(gs[q]),
        decreases bufs@.len() - j,
    {
        stmts.push(render_group(&bufs[j]));
        j = j + 1;
    }
    proof {
        reveal_strlit("\n\n");
        assert("\n\n"@ =~= statement_separator());
        assert(stmts@.map_values(|s: String| s@) =~= gs.map_values(|gr: Group| statement(gr)));
    }
    Ok(join_strings(&stmts, "\n\n"))
}


/// The rules of machine state `i`, in order, as entries.
pub open spec fn rule_entries(m: Machine, i: int) -> Seq<Entry> {
    Seq::new(
        m.states@[i].rules@.len(),
        |k: int|
            (
                m.states@[i].name@,
                m.states@[m.states@[i].rules@[k].target as int].name@,
                m.states@[i].rules@[k].text@,
            ),
    )
}

/// The rules of the first `ii` machine states, state by state, as entries.
pub open spec fn machine_entries(m: Machine, ii: int) -> Seq<Entry>
    decreases ii,
{
    if ii <= 0 {
        Seq::empty()
    } else {
        machine_entries(m, ii - 1) + rule_entries(m, ii - 1)
    }
}

proof fn lemma_mirrored_entries(g: Seq<State>, m: Machine, ii: int)
    requires
        crate::graph::mirrors(g, m),
        machine_wf(m),
        0 <= ii <= g.len(),
    ensures
        graph_entries(g.take(ii), machine_names(m)) == machine_entries(m, ii),
    decreases ii,
{
    let names = machine_names(m);
    if ii > 0 {
        lemma_mirrored_entries(g, m, ii - 1);
        assert(g.take(ii).drop_last() =~= g.take(ii - 1));
        let i = ii - 1;
        assert(transitions_mirror(g[i].transitions@, m, i));
        assert forall|k: int| 0 <= k < m.states@[i].rules@.len() implies #[trigger] state_entries(
            g[i],
            names,
        )[k] == rule_entries(m, i)[k] by {
            assert(m.states@[i].rules@[k].target < m.states@.len());
            assert(g[i].transitions@[k].target_id == m.states@[i].rules@[k].target);
        }
        assert(state_entries(g[i], names) =~= rule_entries(m, i));
    } else {
        assert(g.take(0) =~= Seq::<State>::empty());
    }
}

/// The grouping half of a round trip: in the rule text of a diagram that
/// mirrors a consistent machine, no two statements share a pair of names, every rule of
/// the machine is in the statement of its source and target names, and each
/// statement lists exactly the rules between states of those names, in the
/// machine's order.
pub proof fn lemma_rules_text_lists_machine_rules(m: Machine, g: Seq<State>)
    requires
        crate::graph::mirrors(g, m),
        machine_wf(m),
    ensures
        ({
            let es = machine_entries(m, m.states@.len() as int);
            let gs = group_entries(graph_entries(g, machine_names(m)));
            &&& gs == group_entries(es)
            &&& keys_distinct(gs)
            &&& forall|q: int| 0 <= q < es.len() ==> has_group(gs, (#[trigger] es[q]).0, es[q].1)
            &&& forall|j: int|
                0 <= j < gs.len() ==> (#[trigger] gs[j]).2 == texts_with_key(es, gs[j].0, gs[j].1)
        }),
{
    lemma_mirrored_entries(g, m, g.len() as int);
    assert(g.take(g.len() as int) =~= g);
    lemma_group_entries(machine_entries(m, m.states@.len() as int));
}

} // verus!
