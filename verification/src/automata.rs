//! The machine: a transition table, a tape and a current state.

use crate::atom::Atom;
use crate::tape::{Tape, TapeView};
use vstd::prelude::*;

verus! {

/// The way the head goes after a transition.
#[derive(Debug, Clone, Copy, PartialEq, Eq, Structural)]
pub enum Move {
    Left,
    Right,
}

impl View for Move {
    type V = Move;

    open spec fn view(&self) -> Move {
        *self
    }
}

impl DeepView for Move {
    type V = Move;

    open spec fn deep_view(&self) -> Move {
        *self
    }
}

/// What a transition does: the state to go to, the symbol to write, and the
/// way the head goes afterwards.
pub type NextState<State, Data> = (State, Data, Move);

/// What a transition is looked up by: the current state and the symbol under
/// the head.
pub type CurrState<State, Data> = (State, Data);

/// The key that a configuration is found by: its state and its symbol, each
/// taken by its view.
pub open spec fn key_of<State: Atom, Data: Atom>(c: CurrState<State, Data>) -> (
    State::V,
    Data::V,
) {
    (c.0@, c.1@)
}

/// The table that a list of rules stands for, where a later rule replaces
/// an earlier one of the same configuration.
pub open spec fn table_of<State: Atom, Data: Atom>(
    rules: Seq<(CurrState<State, Data>, NextState<State, Data>)>,
) -> Map<(State::V, Data::V), NextState<State, Data>>
    decreases rules.len(),
{
    if rules.len() == 0 {
        Map::empty()
    } else {
        table_of(rules.drop_last()).insert(key_of(rules.last().0), rules.last().1)
    }
}

/// No two rules of the list have the same configuration.
pub open spec fn distinct_keys<State: Atom, Data: Atom>(
    rules: Seq<(CurrState<State, Data>, NextState<State, Data>)>,
) -> bool {
    forall|i: int, j: int|
        0 <= i < j < rules.len() ==> key_of(#[trigger] rules[i].0) != key_of(#[trigger] rules[j].0)
}

/// A table holds a configuration exactly when some rule of the list has it.
pub proof fn lemma_table_of_domain<State: Atom, Data: Atom>(
    rules: Seq<(CurrState<State, Data>, NextState<State, Data>)>,
    key: (State::V, Data::V),
)
    ensures
        table_of(rules).contains_key(key) <==> exists|i: int|
            0 <= i < rules.len() && key_of(#[trigger] rules[i].0) == key,
    decreases rules.len(),
{
    if rules.len() > 0 {
        let init = rules.drop_last();
        lemma_table_of_domain(init, key);
        if table_of(rules).contains_key(key) {
            if key_of(rules.last().0) == key {
                assert(key_of(rules[rules.len() - 1].0) == key);
            } else {
                let i = choose|i: int| 0 <= i < init.len() && key_of(#[trigger] init[i].0) == key;
                assert(key_of(rules[i].0) == key);
            }
        }
        if exists|i: int| 0 <= i < rules.len() && key_of(#[trigger] rules[i].0) == key {
            let i = choose|i: int| 0 <= i < rules.len() && key_of(#[trigger] rules[i].0) == key;
            if i < rules.len() - 1 {
                assert(key_of(init[i].0) == key);
            }
        }
    }
}

/// Of the rules that share a configuration the last one counts: where no
/// later rule has the configuration of rule `i`, the table maps it to what
/// rule `i` says.
pub proof fn lemma_last_rule_wins<State: Atom, Data: Atom>(
    rules: Seq<(CurrState<State, Data>, NextState<State, Data>)>,
    i: int,
)
    requires
        0 <= i < rules.len(),
        forall|j: int| i < j < rules.len() ==> key_of(#[trigger] rules[j].0) != key_of(rules[i].0),
    ensures
        table_of(rules).contains_key(key_of(rules[i].0)),
        table_of(rules)[key_of(rules[i].0)] == rules[i].1,
    decreases rules.len(),
{
    if i < rules.len() - 1 {
        let init = rules.drop_last();
        assert(key_of(rules[rules.len() - 1].0) != key_of(rules[i].0));
        assert forall|j: int| i < j < init.len() implies key_of(#[trigger] init[j].0) != key_of(
            init[i].0,
        ) by {
            assert(init[j] == rules[j]);
        }
        lemma_last_rule_wins(init, i);
    }
}

/// A list of rules with distinct configurations stands for a table of as
/// many entries.
pub proof fn lemma_table_of_len<State: Atom, Data: Atom>(
    rules: Seq<(CurrState<State, Data>, NextState<State, Data>)>,
)
    requires
        distinct_keys(rules),
    ensures
        table_of(rules).dom().finite(),
        table_of(rules).len() == rules.len(),
    decreases rules.len(),
{
    if rules.len() > 0 {
        let init = rules.drop_last();
        assert forall|i: int, j: int| 0 <= i < j < init.len() implies key_of(
            #[trigger] init[i].0,
        ) != key_of(#[trigger] init[j].0) by {
            assert(init[i] == rules[i] && init[j] == rules[j]);
        }
        lemma_table_of_len(init);
        let key = key_of(rules.last().0);
        lemma_table_of_domain(init, key);
        if table_of(init).contains_key(key) {
            let i = choose|i: int| 0 <= i < init.len() && key_of(#[trigger] init[i].0) == key;
            assert(key_of(rules[i].0) == key_of(rules[rules.len() - 1].0));
            assert(false);
        }
        assert(table_of(rules).dom() =~= table_of(init).dom().insert(key));
    }
}

/// A transition table: for each configuration at most one transition.
///
/// Its view is the map from the keys of the configurations to the
/// transitions.
#[derive(Debug)]
pub struct Movements<State, Data> {
    rules: Vec<(CurrState<State, Data>, NextState<State, Data>)>,
}

impl<State: Atom, Data: Atom> View for Movements<State, Data> {
    type V = Map<(State::V, Data::V), NextState<State, Data>>;

    closed spec fn view(&self) -> Self::V {
        table_of(self.rules@)
    }
}

impl<State: Atom, Data: Atom> Movements<State, Data> {
    /// The table holds no configuration twice.
    pub closed spec fn wf(&self) -> bool {
        distinct_keys(self.rules@)
    }

    /// The empty table.
    pub fn new() -> (r: Self)
        ensures
            r.wf(),
            r@ == Map::<(State::V, Data::V), NextState<State, Data>>::empty(),
    {
        Movements { rules: Vec::new() }
    }

    /// The place of the last rule for the configuration of `state` and
    /// `symbol`, if there is one.
    fn position(&self, state: &State, symbol: &Data) -> (r: Option<usize>)
        ensures
            match r {
                Some(i) => {
                    &&& i < self.rules@.len()
                    &&& key_of(self.rules@[i as int].0) == (state@, symbol@)
                    &&& forall|j: int|
                        i < j < self.rules@.len() ==> key_of(#[trigger] self.rules@[j].0) != (
                            state@,
                            symbol@,
                        )
                },
                None => forall|j: int|
                    0 <= j < self.rules@.len() ==> key_of(#[trigger] self.rules@[j].0) != (
                        state@,
                        symbol@,
                    ),
            },
    {
        let mut i: usize = self.rules.len();
        while i > 0
            invariant
                i <= self.rules@.len(),
                forall|j: int|
                    i <= j < self.rules@.len() ==> key_of(#[trigger] self.rules@[j].0) != (
                        state@,
                        symbol@,
                    ),
            decreases i,
        {
            i -= 1;
            let rule = &self.rules[i];
            if rule.0.0.same(state) && rule.0.1.same(symbol) {
                return Some(i);
            }
        }
        None
    }

    /// The transition for the configuration of `state` and `symbol`, if the
    /// table has one.
    pub fn get(&self, state: &State, symbol: &Data) -> (r: Option<&NextState<State, Data>>)
        ensures
            r == (if self@.contains_key((state@, symbol@)) {
                Some(&self@[(state@, symbol@)])
            } else {
                None
            }),
    {
        proof {
            lemma_table_of_domain(self.rules@, (state@, symbol@));
        }
        match self.position(state, symbol) {
            Some(i) => {
                proof {
                    lemma_last_rule_wins(self.rules@, i as int);
                }
                Some(&self.rules[i].1)
            },
            None => None,
        }
    }

    /// Puts the transition `value` at the configuration `key`. A transition
    /// that the table had there is replaced and handed back.
    pub fn insert(&mut self, key: CurrState<State, Data>, value: NextState<State, Data>) -> (r:
        Option<NextState<State, Data>>)
        ensures
            old(self).wf() ==> final(self).wf(),
            final(self)@ == old(self)@.insert(key_of(key), value),
            r == (if old(self)@.contains_key(key_of(key)) {
                Some(old(self)@[key_of(key)])
            } else {
                None
            }),
    {
        let ghost before = self.rules@;
        proof {
            lemma_table_of_domain(before, key_of(key));
        }
        match self.position(&key.0, &key.1) {
            Some(i) => {
                let mut entry = (key, value);
                self.rules.set_and_swap(i, &mut entry);
                proof {
                    let after = self.rules@;
                    lemma_last_rule_wins(before, i as int);
                    assert forall|q: (State::V, Data::V)|
                        #[trigger] table_of(after).contains_key(q) == table_of(before).insert(
                            key_of(key),
                            value,
                        ).contains_key(q) && (table_of(after).contains_key(q) ==> table_of(
                            after,
                        )[q] == table_of(before).insert(key_of(key), value)[q]) by {
                        lemma_table_of_domain(before, q);
                        lemma_table_of_domain(after, q);
                        lemma_table_of_update(before, i as int, (key, value), q);
                    }
                    assert(table_of(after) =~= table_of(before).insert(key_of(key), value));
                    if distinct_keys(before) {
                        assert forall|a: int, b: int| 0 <= a < b < after.len() implies key_of(
                            #[trigger] after[a].0,
                        ) != key_of(#[trigger] after[b].0) by {
                            assert(key_of(after[a].0) == key_of(before[a].0));
                            assert(key_of(after[b].0) == key_of(before[b].0));
                        }
                    }
                }
                Some(entry.1)
            },
            None => {
                self.rules.push((key, value));
                proof {
                    let after = self.rules@;
                    assert(after.drop_last() =~= before);
                    if distinct_keys(before) {
                        assert forall|a: int, b: int| 0 <= a < b < after.len() implies key_of(
                            #[trigger] after[a].0,
                        ) != key_of(#[trigger] after[b].0) by {
                            if b < before.len() {
                                assert(after[a] == before[a] && after[b] == before[b]);
                            } else {
                                assert(after[a] == before[a]);
                            }
                        }
                    }
                }
                None
            },
        }
    }

    /// The number of configurations that the table has a transition for.
    pub fn len(&self) -> (r: usize)
        requires
            self.wf(),
        ensures
            self@.dom().finite(),
            r == self@.len(),
    {
        proof {
            lemma_table_of_len(self.rules@);
        }
        self.rules.len()
    }
}

/// A rule put in the place of another of the same configuration, after
/// which none of that configuration follows, changes the table at that
/// configuration only.
proof fn lemma_table_of_update<State: Atom, Data: Atom>(
    rules: Seq<(CurrState<State, Data>, NextState<State, Data>)>,
    i: int,
    rule: (CurrState<State, Data>, NextState<State, Data>),
    q: (State::V, Data::V),
)
    requires
        0 <= i < rules.len(),
        key_of(rule.0) == key_of(rules[i].0),
        forall|j: int| i < j < rules.len() ==> key_of(#[trigger] rules[j].0) != key_of(rule.0),
    ensures
        table_of(rules.update(i, rule)).contains_key(q) == table_of(rules).insert(
            key_of(rule.0),
            rule.1,
        ).contains_key(q),
        table_of(rules.update(i, rule)).contains_key(q) ==> table_of(rules.update(i, rule))[q]
            == table_of(rules).insert(key_of(rule.0), rule.1)[q],
    decreases rules.len(),
{
    let after = rules.update(i, rule);
    if i == rules.len() - 1 {
        assert(after.drop_last() =~= rules.drop_last());
    } else {
        let init = rules.drop_last();
        assert(after.drop_last() =~= init.update(i, rule));
        assert(key_of(rules[rules.len() - 1].0) != key_of(rule.0));
        assert forall|j: int| i < j < init.len() implies key_of(#[trigger] init[j].0) != key_of(
            rule.0,
        ) by {
            assert(init[j] == rules[j]);
        }
        lemma_table_of_update(init, i, rule, q);
    }
}

/// The mathematical content of a machine.
pub struct MachineView<State: Atom, Data: Atom> {
    /// The transition table, by the keys of its configurations.
    pub movements: Map<(State::V, Data::V), NextState<State, Data>>,
    /// The tape.
    pub tape: TapeView<Data>,
    /// The current state.
    pub state: State,
}

impl<State: Atom, Data: Atom> MachineView<State, Data> {
    /// The head of the tape stands on a cell.
    pub open spec fn wf(self) -> bool {
        self.tape.wf()
    }

    /// The key of the current configuration: the state and the symbol under
    /// the head.
    pub open spec fn configuration(self) -> (State::V, Data::V) {
        (self.state@, self.tape.current()@)
    }

    /// Whether the machine has come to a halt: the table has no transition
    /// for the current configuration.
    pub open spec fn halted(self) -> bool {
        !self.movements.contains_key(self.configuration())
    }

    /// The machine after one transition: the symbol of the transition is
    /// written under the head, the state becomes that of the transition, and
    /// then the head moves as the transition says.
    pub open spec fn next(self) -> Self {
        let (state, symbol, direction) = self.movements[self.configuration()];
        MachineView { movements: self.movements, tape: self.tape.write(symbol).shift(direction), state }
    }

    /// The machine after `n` transitions, or after as many as it makes
    /// before it halts.
    pub open spec fn after(self, n: nat) -> Self
        decreases n,
    {
        if n == 0 || self.halted() {
            self
        } else {
            self.next().after((n - 1) as nat)
        }
    }

    /// A transition leaves the table as it is and the head on a cell.
    pub proof fn lemma_next_keeps_wf(self)
        requires
            self.wf(),
        ensures
            self.next().wf(),
            self.next().movements == self.movements,
    {
    }

    /// However many transitions a machine makes, its table stays as it is
    /// and the head of its tape stays on a cell.
    pub proof fn lemma_after_keeps_wf(self, n: nat)
        requires
            self.wf(),
        ensures
            self.after(n).wf(),
            self.after(n).movements == self.movements,
        decreases n,
    {
        if n > 0 && !self.halted() {
            self.lemma_next_keeps_wf();
            self.next().lemma_after_keeps_wf((n - 1) as nat);
        }
    }

    /// A machine that has halted stays as it is.
    pub proof fn lemma_halted_stays(self, n: nat)
        requires
            self.halted(),
        ensures
            self.after(n) == self,
    {
    }
}

/// A Turing machine: a transition table, a tape and the current state.
///
/// The head of its tape is always on a cell.
pub struct TuringMachine<State: Atom, Data: Atom> {
    movements: Movements<State, Data>,
    tape: Tape<Data>,
    state: State,
}

/// What one step of a machine gives.
pub enum StepResult<State: Atom, Data: Atom> {
    /// No transition was there for the configuration: the state and the tape
    /// as they stood.
    Stopped(State, Tape<Data>),
    /// A transition was made: the machine after it.
    Running(TuringMachine<State, Data>),
}

impl<State: Atom, Data: Atom> View for TuringMachine<State, Data> {
    type V = MachineView<State, Data>;

    closed spec fn view(&self) -> MachineView<State, Data> {
        MachineView { movements: self.movements@, tape: self.tape@, state: self.state }
    }
}

impl<State: Atom, Data: Atom> TuringMachine<State, Data> {
    #[verifier::type_invariant]
    spec fn head_on_tape(self) -> bool {
        self.tape@.wf()
    }

    /// The machine with the table `movements` and the tape `tape`, in the
    /// state `state`.
    pub fn new(movements: Movements<State, Data>, tape: Tape<Data>, state: State) -> (r: Self)
        requires
            tape@.wf(),
        ensures
            r@ == (MachineView { movements: movements@, tape: tape@, state }),
            r@.wf(),
    {
        TuringMachine { movements, tape, state }
    }

    /// One step. Where the table has a transition for the current state and
    /// the symbol under the head, the machine makes it and runs on. Where it
    /// has none, the machine stops, with its state and its tape as they
    /// stand.
    pub fn run(self) -> (r: StepResult<State, Data>)
        ensures
            self@.wf(),
            match r {
                StepResult::Stopped(state, tape) => {
                    &&& self@.halted()
                    &&& state == self@.state
                    &&& tape@ == self@.tape
                },
                StepResult::Running(machine) => {
                    &&& !self@.halted()
                    &&& machine@ == self@.next()
                    &&& machine@.wf()
                },
            },
    {
        proof {
            use_type_invariant(&self);
        }
        let TuringMachine { movements, mut tape, state } = self;
        match movements.get(&state, tape.read()) {
            Some(rule) => {
                let next = rule.0.duplicate();
                let symbol = rule.1.duplicate();
                let direction = rule.2;
                tape.write(symbol);
                match direction {
                    Move::Left => tape.move_left(),
                    Move::Right => tape.move_right(),
                }
                StepResult::Running(TuringMachine { movements, tape, state: next })
            },
            None => StepResult::Stopped(state, tape),
        }
    }

    /// The tape as it stands.
    pub fn tape(&self) -> (r: &Tape<Data>)
        ensures
            r@ == self@.tape,
            r@.wf(),
    {
        proof {
            use_type_invariant(self);
        }
        &self.tape
    }

    /// The current state.
    pub fn state(&self) -> (r: &State)
        ensures
            *r == self@.state,
    {
        &self.state
    }
}

} // verus!
