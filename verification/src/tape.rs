//! The tape: a row of cells with a head on one of them, which grows by one
//! blank cell whenever the head steps over either end.

use crate::atom::Atom;
use crate::automata::Move;
use std::fmt::Display;
use vstd::prelude::*;
use vstd::string::*;

verus! {

/// The mathematical content of a tape.
pub struct TapeView<Data> {
    /// The cells, leftmost first.
    pub cells: Seq<Data>,
    /// The position of the head in `cells`.
    pub head: int,
    /// The symbol that fills a cell when the tape grows.
    pub blank: Data,
}

impl<Data> TapeView<Data> {
    /// The head stands on a cell; so there is at least one cell.
    pub open spec fn wf(self) -> bool {
        0 <= self.head < self.cells.len()
    }

    /// The symbol under the head.
    pub open spec fn current(self) -> Data {
        self.cells[self.head]
    }

    /// The tape with `data` under the head.
    pub open spec fn write(self, data: Data) -> Self {
        TapeView { cells: self.cells.update(self.head, data), ..self }
    }

    /// The tape with the head one cell further right. Past the last cell a
    /// blank cell is appended.
    pub open spec fn move_right(self) -> Self {
        if self.head + 1 < self.cells.len() {
            TapeView { head: self.head + 1, ..self }
        } else {
            TapeView { cells: self.cells.push(self.blank), head: self.head + 1, ..self }
        }
    }

    /// The tape with the head one cell further left. Before the first cell a
    /// blank cell is put in front, and the head stands on it at position 0.
    pub open spec fn move_left(self) -> Self {
        if self.head == 0 {
            TapeView { cells: seq![self.blank] + self.cells, ..self }
        } else {
            TapeView { head: self.head - 1, ..self }
        }
    }

    /// The tape after one step of the head in the direction `m`.
    pub open spec fn shift(self, m: Move) -> Self {
        match m {
            Move::Left => self.move_left(),
            Move::Right => self.move_right(),
        }
    }

    /// The tape after the steps `moves`, taken in order.
    pub open spec fn shift_all(self, moves: Seq<Move>) -> Self
        decreases moves.len(),
    {
        if moves.len() == 0 {
            self
        } else {
            self.shift_all(moves.drop_last()).shift(moves.last())
        }
    }

    /// Whatever steps the head takes, it stays on a cell: after each of them
    /// the head is within the cells, and the tape is not empty.
    pub proof fn lemma_steps_keep_head_on_tape(self, moves: Seq<Move>)
        requires
            self.wf(),
        ensures
            forall|k: int|
                0 <= k <= moves.len() ==> (#[trigger] self.shift_all(moves.take(k))).wf(),
            self.shift_all(moves).wf(),
            self.shift_all(moves).cells.len() >= 1,
        decreases moves.len(),
    {
        if moves.len() > 0 {
            let init = moves.drop_last();
            self.lemma_steps_keep_head_on_tape(init);
            assert forall|k: int| 0 <= k <= moves.len() implies (#[trigger] self.shift_all(
                moves.take(k),
            )).wf() by {
                if k < moves.len() {
                    assert(moves.take(k) =~= init.take(k));
                } else {
                    assert(moves.take(k) =~= moves);
                }
            }
        } else {
            assert forall|k: int| 0 <= k <= moves.len() implies (#[trigger] self.shift_all(
                moves.take(k),
            )).wf() by {
                assert(moves.take(k) =~= moves);
            }
        }
        assert(moves.take(moves.len() as int) =~= moves);
    }

    /// What was written is what is read next.
    pub proof fn lemma_write_then_read(self, data: Data)
        requires
            self.wf(),
        ensures
            self.write(data).wf(),
            self.write(data).current() == data,
            self.write(data).head == self.head,
            self.write(data).cells.len() == self.cells.len(),
    {
    }

    /// A step to the right from the last cell adds exactly one cell, a blank
    /// one at the end, and leaves the others as they were.
    pub proof fn lemma_right_past_end_appends_blank(self)
        requires
            self.wf(),
            self.head == self.cells.len() - 1,
        ensures
            self.move_right().cells.len() == self.cells.len() + 1,
            self.move_right().current() == self.blank,
            self.move_right().head == self.cells.len(),
            forall|i: int|
                0 <= i < self.cells.len() ==> self.move_right().cells[i] == self.cells[i],
    {
    }

    /// A step to the left from the first cell adds exactly one cell, a blank
    /// one at position 0, and leaves the others as they were and in their
    /// order, each one place further right.
    pub proof fn lemma_left_past_start_prepends_blank(self)
        requires
            self.wf(),
            self.head == 0,
        ensures
            self.move_left().cells.len() == self.cells.len() + 1,
            self.move_left().current() == self.blank,
            self.move_left().head == 0,
            forall|i: int|
                0 <= i < self.cells.len() ==> self.move_left().cells[i + 1] == self.cells[i],
    {
    }

    /// A step that stays within the cells changes no cell.
    pub proof fn lemma_step_within_keeps_cells(self, m: Move)
        requires
            self.wf(),
            m == Move::Right ==> self.head + 1 < self.cells.len(),
            m == Move::Left ==> self.head > 0,
        ensures
            self.shift(m).cells == self.cells,
            self.shift(m).head == (if m == Move::Right {
                self.head + 1
            } else {
                self.head - 1
            }),
    {
    }
}

/// A tape of symbols with a head on one of its cells.
///
/// Every tape that the constructors build, and every tape that the
/// operations leave behind, has its head on a cell (`self@.wf()`), so it is
/// never empty.
#[derive(Debug, PartialEq, Eq)]
pub struct Tape<Data> {
    index: usize,
    mem: Vec<Data>,
    default: Data,
}

impl<Data> View for Tape<Data> {
    type V = TapeView<Data>;

    closed spec fn view(&self) -> TapeView<Data> {
        TapeView { cells: self.mem@, head: self.index as int, blank: self.default }
    }
}

impl<Data> Tape<Data> {
    /// The symbol under the head.
    pub fn read(&self) -> (r: &Data)
        requires
            self@.wf(),
        ensures
            *r == self@.current(),
    {
        &self.mem[self.index]
    }

    /// Puts `data` under the head. No cell is added and the head stays.
    pub fn write(&mut self, data: Data)
        requires
            old(self)@.wf(),
        ensures
            final(self)@.wf(),
            final(self)@ == old(self)@.write(data),
    {
        self.mem[self.index] = data;
    }
}

impl<Data: Default> Default for Tape<Data> {
    /// One cell, the head on it; the cell and the blank symbol are both
    /// default values of `Data`.
    fn default() -> (r: Self)
        ensures
            r@.wf(),
            r@.head == 0,
            r@.cells.len() == 1,
            call_ensures(Data::default, (), r@.cells[0]),
            call_ensures(Data::default, (), r@.blank),
    {
        let cell = Data::default();
        let mut mem: Vec<Data> = Vec::new();
        mem.push(cell);
        Tape { index: 0, mem, default: Data::default() }
    }
}

impl<Data: Default + Atom> Tape<Data> {
    /// A tape of one default cell, with the default value as its blank.
    pub fn new() -> (r: Self)
        ensures
            r@.wf(),
            r@.head == 0,
            r@.cells.len() == 1,
            call_ensures(Data::default, (), r@.cells[0]),
            call_ensures(Data::default, (), r@.blank),
    {
        Self::default()
    }

    /// The tape that holds `mem`, the head on its first cell, with the
    /// default value of `Data` as its blank. An empty `mem` gives one blank
    /// cell.
    pub fn new_with_data(mem: Vec<Data>) -> (r: Self)
        ensures
            r@.wf(),
            call_ensures(Data::default, (), r@.blank),
            r@ == Self::spec_new(mem@, 0, r@.blank),
    {
        Self::new_with_data_index(mem, 0)
    }

    /// The tape that holds `mem`, the head on cell `index`, with the default
    /// value of `Data` as its blank. An empty `mem` gives one blank cell, and
    /// an `index` past the last cell gives the last cell.
    pub fn new_with_data_index(mem: Vec<Data>, index: usize) -> (r: Self)
        ensures
            r@.wf(),
            call_ensures(Data::default, (), r@.blank),
            r@ == Self::spec_new(mem@, index as int, r@.blank),
    {
        Self::new_with_data_index_default(mem, index, Data::default())
    }
}

impl<Data: Atom> Tape<Data> {
    /// What the constructors build from cells, a head position and a blank:
    /// no cells give one blank cell, and a head past the last cell stands on
    /// the last cell.
    pub open spec fn spec_new(mem: Seq<Data>, index: int, default: Data) -> TapeView<Data> {
        let cells = if mem.len() == 0 {
            seq![default]
        } else {
            mem
        };
        TapeView {
            cells,
            head: if index < cells.len() {
                index
            } else {
                cells.len() - 1
            },
            blank: default,
        }
    }

    /// A tape of one cell that holds `default`, with `default` as its blank.
    pub fn new_default(default: Data) -> (r: Self)
        ensures
            r@.wf(),
            r@ == (TapeView { cells: seq![default], head: 0, blank: default }),
    {
        let mut mem: Vec<Data> = Vec::new();
        mem.push(default.duplicate());
        Self::new_with_data_default(mem, default)
    }

    /// The tape that holds `mem`, the head on its first cell. An empty `mem`
    /// gives one blank cell.
    pub fn new_with_data_default(mem: Vec<Data>, default: Data) -> (r: Self)
        ensures
            r@.wf(),
            r@ == Self::spec_new(mem@, 0, default),
    {
        Self::new_with_data_index_default(mem, 0, default)
    }

    /// The tape that holds `mem`, the head on cell `index`. The tape is never
    /// empty and the head is always on a cell: an empty `mem` gives one blank
    /// cell, and an `index` past the last cell is taken back to the last
    /// cell.
    pub fn new_with_data_index_default(mem: Vec<Data>, index: usize, default: Data) -> (r: Self)
        ensures
            r@.wf(),
            r@ == Self::spec_new(mem@, index as int, default),
            index < mem@.len() ==> r@ == (TapeView {
                cells: mem@,
                head: index as int,
                blank: default,
            }),
    {
        let mut cells = mem;
        if cells.len() == 0 {
            cells.push(default.duplicate());
            assert(cells@ =~= seq![default]);
        }
        let last: usize = cells.len() - 1;
        let head: usize = if index < cells.len() {
            index
        } else {
            last
        };
        Tape { index: head, mem: cells, default }
    }

    /// Moves the head one cell to the right. When it leaves the last cell,
    /// one blank cell is appended for it to stand on.
    pub fn move_right(&mut self)
        requires
            old(self)@.wf(),
        ensures
            final(self)@.wf(),
            final(self)@ == old(self)@.move_right(),
    {
        if self.index == self.mem.len() - 1 {
            let fill = self.default.duplicate();
            self.mem.push(fill);
        }
        self.index += 1;
    }

    /// Moves the head one cell to the left. When it stands on the first
    /// cell, one blank cell is put in front instead, and the head stands on
    /// it at position 0.
    pub fn move_left(&mut self)
        requires
            old(self)@.wf(),
        ensures
            final(self)@.wf(),
            final(self)@ == old(self)@.move_left(),
    {
        if self.index == 0 {
            let fill = self.default.duplicate();
            self.mem.insert(0, fill);
            assert(self.mem@ =~= seq![fill] + old(self).mem@);
        } else {
            self.index -= 1;
        }
    }
}

impl<Data: Atom> Clone for Tape<Data> {
    /// A tape with the same cells, head and blank.
    fn clone(&self) -> (r: Self)
        ensures
            r@ == self@,
    {
        let mut mem: Vec<Data> = Vec::new();
        let mut i: usize = 0;
        while i < self.mem.len()
            invariant
                i <= self.mem.len(),
                mem@ == self.mem@.take(i as int),
            decreases self.mem.len() - i,
        {
            mem.push(self.mem[i].duplicate());
            i += 1;
        }
        assert(self.mem@.take(self.mem.len() as int) =~= self.mem@);
        Tape { index: self.index, mem, default: self.default.duplicate() }
    }
}

/// The text of each of `parts`.
pub open spec fn texts(parts: Seq<String>) -> Seq<Seq<char>> {
    Seq::new(parts.len(), |i: int| parts[i]@)
}

/// One cell as it is printed: a space and the cell's text, and before them,
/// for the cell under the head, a space and the label.
pub open spec fn entry(part: Seq<char>, marked: bool, label: Seq<char>) -> Seq<char> {
    if marked {
        seq![' '] + label + seq![' '] + part
    } else {
        seq![' '] + part
    }
}

/// A tape on one line: every cell in order, each after a space, and the
/// label just before the cell at `head`.
pub open spec fn rendering(parts: Seq<Seq<char>>, head: int, label: Seq<char>) -> Seq<char>
    decreases parts.len(),
{
    if parts.len() == 0 {
        Seq::empty()
    } else {
        rendering(parts.drop_last(), head, label) + entry(
            parts.last(),
            parts.len() - 1 == head,
            label,
        )
    }
}

/// Each of `parts` is a text that `Display` gave for the item at its place.
pub open spec fn shown_as<T: Display>(items: Seq<T>, parts: Seq<String>) -> bool {
    &&& parts.len() == items.len()
    &&& forall|i: int|
        0 <= i < items.len() ==> to_string_from_display_ensures::<T>(&items[i], #[trigger] parts[i])
}

/// Lays out the texts of a tape's cells on one line, with `label` before the
/// cell at `head`. With `head` past the last cell the label is left out.
pub fn layout(parts: &Vec<String>, head: usize, label: &str) -> (r: String)
    ensures
        r@ == rendering(texts(parts@), head as int, label@),
{
    let mut out = String::new();
    let mut i: usize = 0;
    proof {
        reveal_strlit(" ");
        assert(" "@ =~= seq![' ']);
    }
    while i < parts.len()
        invariant
            i <= parts.len(),
            " "@ == seq![' '],
            out@ == rendering(texts(parts@.take(i as int)), head as int, label@),
        decreases parts.len() - i,
    {
        let ghost before = out@;
        if i == head {
            out.append(" ");
            out.append(label);
        }
        out.append(" ");
        out.append(parts[i].as_str());
        proof {
            let done = texts(parts@.take(i as int));
            let now = texts(parts@.take(i + 1));
            assert(now.drop_last() =~= done);
            assert(now.last() == parts@[i as int]@);
            assert(out@ =~= before + entry(parts@[i as int]@, i == head, label@));
        }
        i += 1;
    }
    assert(parts@.take(parts.len() as int) =~= parts@);
    out
}

/// The text that `Display` gives for each of `items`, in order.
fn texts_of<T: Display>(items: &Vec<T>) -> (parts: Vec<String>)
    ensures
        shown_as(items@, parts@),
{
    let mut parts: Vec<String> = Vec::new();
    let mut i: usize = 0;
    while i < items.len()
        invariant
            i <= items.len(),
            shown_as(items@.take(i as int), parts@),
        decreases items.len() - i,
    {
        let part = items[i].to_string();
        parts.push(part);
        i += 1;
    }
    assert(items@.take(items.len() as int) =~= items@);
    parts
}

/// A tape together with a state label, to be printed on one line.
pub struct TapeDisplay<'a, Data, State> where Data: Display, State: Display {
    tape: &'a Tape<Data>,
    state: &'a State,
}

impl<'a, Data: Display, State: Display> TapeDisplay<'a, Data, State> {
    /// The tape to print.
    pub closed spec fn tape(&self) -> Tape<Data> {
        *self.tape
    }

    /// The label to print before the cell under the head.
    pub closed spec fn state(&self) -> State {
        *self.state
    }

    /// The line: every cell of the tape in order, each after a space, as
    /// `Display` shows it, and the label, after a space of its own, just
    /// before the cell under the head.
    pub fn to_string(&self) -> (r: String)
        ensures
            exists|parts: Seq<String>, label: String|
                #![trigger shown_as(self.tape()@.cells, parts), label@]
                {
                    &&& shown_as(self.tape()@.cells, parts)
                    &&& to_string_from_display_ensures::<State>(&self.state(), label)
                    &&& r@ == rendering(texts(parts), self.tape()@.head, label@)
                },
    {
        let parts = texts_of(&self.tape.mem);
        let label = self.state.to_string();
        let r = layout(&parts, self.tape.index, label.as_str());
        assert(shown_as(self.tape()@.cells, parts@) && to_string_from_display_ensures::<State>(
            &self.state(),
            label,
        ) && r@ == rendering(texts(parts@), self.tape()@.head, label@));
        r
    }
}

impl<Data: Display> Tape<Data> {
    /// The tape and `state`, to be printed together.
    pub fn display<'a, State: Display>(&'a self, state: &'a State) -> (r: TapeDisplay<
        'a,
        Data,
        State,
    >)
        ensures
            r.tape() == *self,
            r.state() == *state,
    {
        TapeDisplay { tape: self, state }
    }

    /// The tape on one line, with `>>` before the cell under the head.
    pub fn to_string(&self) -> (r: String)
        ensures
            exists|parts: Seq<String>| #[trigger]
                shown_as(self@.cells, parts) && r@ == rendering(
                    texts(parts),
                    self@.head,
                    ">>"@,
                ),
    {
        let parts = texts_of(&self.mem);
        let r = layout(&parts, self.index, ">>");
        assert(shown_as(self@.cells, parts@));
        r
    }
}

} // verus!
