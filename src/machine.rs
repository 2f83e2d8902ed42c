//! The machine whose rules the diagram shows: states in index order, each
//! with its ordered rule list. A rule is kept as its rendered text and the
//! index of the state it leads to; this crate never interprets the text.

use vstd::prelude::*;

verus! {

/// One rule of a state: its text and the index of its destination state.
#[derive(Clone, Debug)]
pub struct Rule {
    pub text: String,
    pub target: u8,
}

/// A state of the machine and the rules that leave it, in order.
#[derive(Clone, Debug)]
pub struct MachineState {
    pub name: String,
    pub rules: Vec<Rule>,
}

/// A machine with `tracks` writing tracks besides the input track.
#[derive(Clone, Debug)]
pub struct Machine {
    pub tracks: u8,
    pub states: Vec<MachineState>,
}

/// At most 256 states, at most 256 rules per state, so that every index
/// fits in a `u8`.
pub open spec fn index_range_ok(m: Machine) -> bool {
    &&& m.states@.len() <= 256
    &&& forall|i: int| 0 <= i < m.states@.len() ==> #[trigger] m.states@[i].rules@.len() <= 256
}

/// Every rule leads to an existing state.
pub open spec fn targets_ok(m: Machine) -> bool {
    forall|i: int, k: int|
        0 <= i < m.states@.len() && 0 <= k < m.states@[i].rules@.len() ==> (
        #[trigger] m.states@[i].rules@[k]).target < m.states@.len()
}

/// A machine that a diagram can mirror.
pub open spec fn machine_wf(m: Machine) -> bool {
    index_range_ok(m) && targets_ok(m)
}

/// Some rule leads from state `from` to state `to`.
pub open spec fn spec_has_rule(m: Machine, from: int, to: int) -> bool {
    &&& 0 <= from < m.states@.len()
    &&& exists|k: int|
        0 <= k < m.states@[from].rules@.len() && (#[trigger] m.states@[from].rules@[k]).target
            == to
}

/// Rules lead from `i` to `j` or from `j` to `i`.
pub open spec fn spec_adjacent(m: Machine, i: int, j: int) -> bool {
    spec_has_rule(m, i, j) || spec_has_rule(m, j, i)
}

/// The characters of `s` separated by commas.
pub open spec fn comma_list(s: Seq<char>) -> Seq<char>
    decreases s.len(),
{
    if s.len() == 0 {
        Seq::empty()
    } else if s.len() == 1 {
        seq![s[0]]
    } else {
        comma_list(s.drop_last()) + seq![',', s.last()]
    }
}

/// The blank rule of a machine with `k` writing tracks: it reads the blank
/// `ç` on all `k + 1` tracks, writes `ç` on the `k` writing tracks and moves
/// every head right, rendered as `ç,…,ç→ç,…,ç,R,…,R`.
pub open spec fn blank_rule_text(k: nat) -> Seq<char> {
    comma_list(Seq::new(k + 1, |i: int| '\u{e7}')) + seq!['\u{2192}'] + comma_list(
        Seq::new(k, |i: int| '\u{e7}') + Seq::new(k + 1, |i: int| 'R'),
    )
}

proof fn lemma_comma_list_push(s: Seq<char>, c: char)
    ensures
        comma_list(s.push(c)) == if s.len() == 0 {
            seq![c]
        } else {
            comma_list(s) + seq![',', c]
        },
{
    assert(s.push(c).drop_last() =~= s);
}

/// Appends `c` to a comma list that holds `count` items.
fn push_item(out: &mut String, count: usize, c: &str)
    requires
        c@.len() == 1,
    ensures
        final(out)@ == if count == 0 {
            old(out)@ + c@
        } else {
            old(out)@ + seq![','] + c@
        },
{
    if count > 0 {
        proof {
            reveal_strlit(",");
        }
        out.append(",");
    }
    out.append(c);
}

/// The text of the rule that a new edge starts with: the blank rule for a
/// machine with `tracks` writing tracks.
pub fn blank_rule(tracks: u8) -> (r: String)
    ensures
        r@ == blank_rule_text(tracks as nat),
{
    let k: usize = tracks as usize;
    let ghost reads = Seq::new(k as nat + 1, |i: int| '\u{e7}');
    let ghost tail = Seq::new(k as nat, |i: int| '\u{e7}') + Seq::new(k as nat + 1, |i: int| 'R');
    let mut out = String::new();
    let mut i: usize = 0;
    while i < k + 1
        invariant
            i <= k + 1,
            k == tracks as usize,
            reads == Seq::new(k as nat + 1, |i: int| '\u{e7}'),
            out@ == comma_list(reads.take(i as int)),
        decreases k + 1 - i,
    {
        proof {
            reveal_strlit("\u{e7}");
            assert(reads.take(i as int + 1) =~= reads.take(i as int).push('\u{e7}'));
            lemma_comma_list_push(reads.take(i as int), '\u{e7}');
        }
        let ghost before = out@;
        push_item(&mut out, i, "\u{e7}");
        proof {
            if i > 0 {
                assert(out@ =~= before + seq![',', '\u{e7}']);
            }
        }
        i = i + 1;
    }
    assert(reads.take(k as int + 1) =~= reads);
    proof {
        reveal_strlit("\u{2192}");
    }
    out.append("\u{2192}");
    let ghost mid = out@;
    let mut j: usize = 0;
    while j < 2 * k + 1
        invariant
            j <= 2 * k + 1,
            k == tracks as usize,
            tail == Seq::new(k as nat, |i: int| '\u{e7}') + Seq::new(k as nat + 1, |i: int| 'R'),
            out@ == mid + comma_list(tail.take(j as int)),
        decreases 2 * k + 1 - j,
    {
        proof {
            reveal_strlit("\u{e7}");
            reveal_strlit("R");
            assert(tail.take(j as int + 1) =~= tail.take(j as int).push(tail[j as int]));
            lemma_comma_list_push(tail.take(j as int), tail[j as int]);
        }
        let ghost before = out@;
        if j < k {
            push_item(&mut out, j, "\u{e7}");
        } else {
            push_item(&mut out, j, "R");
        }
        proof {
            if j > 0 {
                assert(out@ =~= before + seq![',', tail[j as int]]);
            } else {
                assert(out@ =~= before + seq![tail[j as int]]);
            }
            assert(out@ =~= mid + comma_list(tail.take(j as int + 1)));
        }
        j = j + 1;
    }
    assert(tail.take(2 * k as int + 1) =~= tail);
    out
}

impl Machine {
    /// Whether some rule leads from state `from` to state `to`.
    pub fn has_rule(&self, from: u8, to: u8) -> (r: bool)
        ensures
            r == spec_has_rule(*self, from as int, to as int),
    {
        if from as usize >= self.states.len() {
            return false;
        }
        let rules = &self.states[from as usize].rules;
        let mut k: usize = 0;
        while k < rules.len()
            invariant
                from < self.states@.len(),
                rules == self.states@[from as int].rules,
                k <= rules@.len(),
                forall|q: int| 0 <= q < k ==> (#[trigger] rules@[q]).target != to,
            decreases rules@.len() - k,
        {
            if rules[k].target == to {
                return true;
            }
            k = k + 1;
        }
        false
    }

    /// Appends a rule with `text` from state `from` to state `to` and returns
    /// its index in the rule list of `from`. Fails, changing nothing, when
    /// either state does not exist or `from` already has 256 rules.
    pub fn append_rule(&mut self, from: u8, text: String, to: u8) -> (r: Option<u8>)
        ensures
            r.is_some() <==> (from < old(self).states@.len() && to < old(self).states@.len()
                && old(self).states@[from as int].rules@.len() < 256),
            r.is_none() ==> *final(self) == *old(self),
            r.is_some() ==> {
                &&& r.unwrap() as int == old(self).states@[from as int].rules@.len()
                &&& final(self).tracks == old(self).tracks
                &&& final(self).states@ == old(self).states@.update(
                    from as int,
                    MachineState {
                        name: old(self).states@[from as int].name,
                        rules: final(self).states@[from as int].rules,
                    },
                )
                &&& final(self).states@[from as int].rules@ == old(
                    self,
                ).states@[from as int].rules@.push(Rule { text, target: to })
            },
    {
        let n = self.states.len();
        if from as usize >= n || to as usize >= n {
            return None;
        }
        let count = self.states[from as usize].rules.len();
        if count >= 256 {
            return None;
        }
        let mut st = self.states.remove(from as usize);
        st.rules.push(Rule { text, target: to });
        self.states.insert(from as usize, st);
        proof {
            assert(self.states@ =~= old(self).states@.update(
                from as int,
                MachineState {
                    name: old(self).states@[from as int].name,
                    rules: self.states@[from as int].rules,
                },
            ));
        }
        Some(count as u8)
    }
}

} // verus!
