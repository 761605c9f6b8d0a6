//! Configured world clocks and the collection that keeps exactly one main clock.

use vstd::prelude::*;

verus! {

/// A configured world clock.
#[derive(Clone, Debug)]
pub struct Clock {
    pub label: String,
    pub time_zone: String,
    pub color: String,
    pub is_main: bool,
}

/// The same clock with its main flag replaced.
pub open spec fn with_main(clock: Clock, is_main: bool) -> Clock {
    Clock { label: clock.label, time_zone: clock.time_zone, color: clock.color, is_main }
}

/// Index of the first clock flagged as main, or 0 when none is.
pub open spec fn first_main_index(clocks: Seq<Clock>) -> int
    decreases clocks.len(),
{
    if clocks.len() == 0 {
        0
    } else if clocks[0].is_main {
        0
    } else if exists|i: int| 0 <= i < clocks.len() && clocks[i].is_main {
        1 + first_main_index(clocks.drop_first())
    } else {
        0
    }
}

/// The clocks with only `main` flagged as main, everything else unchanged.
pub open spec fn only_main(clocks: Seq<Clock>, main: int) -> Seq<Clock> {
    Seq::new(clocks.len(), |i: int| with_main(clocks[i], i == main))
}

/// The clocks after removing `index`; a removed main clock passes the main
/// flag to the first remaining clock.
pub open spec fn removed_clocks(clocks: Seq<Clock>, index: int) -> Seq<Clock> {
    let rest = clocks.remove(index);
    if clocks[index].is_main {
        rest.update(0, with_main(rest[0], true))
    } else {
        rest
    }
}

/// Whether removing `index` is allowed: never the last clock, only an existing one.
pub open spec fn can_remove(clocks: Seq<Clock>, index: int) -> bool {
    clocks.len() > 1 && 0 <= index < clocks.len()
}

/// The clocks with positions `from` and `to` exchanged.
pub open spec fn swapped_clocks(clocks: Seq<Clock>, from: int, to: int) -> Seq<Clock> {
    clocks.update(from, clocks[to]).update(to, clocks[from])
}

/// Whether a move between `from` and `to` changes anything.
pub open spec fn can_move(clocks: Seq<Clock>, from: int, to: int) -> bool {
    0 <= from < clocks.len() && 0 <= to < clocks.len() && from != to
}

/// Number of clocks flagged as main.
pub open spec fn main_count(clocks: Seq<Clock>) -> nat
    decreases clocks.len(),
{
    if clocks.len() == 0 {
        0
    } else {
        (if clocks.last().is_main { 1nat } else { 0nat }) + main_count(clocks.drop_last())
    }
}

/// Exactly one clock of the sequence is flagged as main.
pub open spec fn has_single_main(clocks: Seq<Clock>) -> bool {
    exists|m: int|
        0 <= m < clocks.len() && clocks[m].is_main && forall|i: int|
            0 <= i < clocks.len() && i != m ==> !#[trigger] clocks[i].is_main
}

/// The first-main index picks a main clock when there is one, and is in range.
pub proof fn lemma_first_main_index(clocks: Seq<Clock>)
    requires
        clocks.len() > 0,
    ensures
        0 <= first_main_index(clocks) < clocks.len(),
        (exists|i: int| 0 <= i < clocks.len() && clocks[i].is_main) ==> {
            &&& clocks[first_main_index(clocks)].is_main
            &&& forall|i: int| 0 <= i < first_main_index(clocks) ==> !#[trigger] clocks[i].is_main
        },
        !(exists|i: int| 0 <= i < clocks.len() && clocks[i].is_main) ==> first_main_index(clocks)
            == 0,
    decreases clocks.len(),
{
    if clocks[0].is_main {
    } else if exists|i: int| 0 <= i < clocks.len() && clocks[i].is_main {
        let w = choose|i: int| 0 <= i < clocks.len() && clocks[i].is_main;
        let rest = clocks.drop_first();
        assert(rest[w - 1].is_main);
        lemma_first_main_index(rest);
        assert forall|i: int| 0 <= i < first_main_index(clocks) implies !#[trigger] clocks[i].is_main by {
            if i > 0 {
                assert(clocks[i] == rest[i - 1]);
            }
        }
    }
}

/// Flagging one in-range clock as the only main clock leaves exactly one main clock.
pub proof fn lemma_only_main_single(clocks: Seq<Clock>, main: int)
    requires
        0 <= main < clocks.len(),
    ensures
        has_single_main(only_main(clocks, main)),
{
    let r = only_main(clocks, main);
    assert(r[main].is_main);
    assert forall|i: int| 0 <= i < r.len() && i != main implies !#[trigger] r[i].is_main by {}
}

/// Clocks that already have exactly one main clock are left as they are by
/// the normalization.
pub proof fn lemma_single_main_is_normalized(clocks: Seq<Clock>)
    requires
        has_single_main(clocks),
    ensures
        only_main(clocks, first_main_index(clocks)) == clocks,
{
    let m = choose|m: int|
        0 <= m < clocks.len() && clocks[m].is_main && forall|i: int|
            0 <= i < clocks.len() && i != m ==> !#[trigger] clocks[i].is_main;
    lemma_first_main_index(clocks);
    assert(clocks[m].is_main);
    let main = first_main_index(clocks);
    assert(main == m) by {
        if main != m {
            assert(!clocks[main].is_main);
        }
    }
    assert forall|i: int| 0 <= i < clocks.len() implies #[trigger] only_main(clocks, main)[i] == clocks[i] by {
        if i != main {
            assert(!clocks[i].is_main);
        }
    }
    assert(only_main(clocks, main) =~= clocks);
}

/// Owns a non-empty list of clocks and applies the clock-editing rules to it.
#[derive(Clone, Debug)]
pub struct ClockCollection {
    clocks: Vec<Clock>,
}

impl View for ClockCollection {
    type V = Seq<Clock>;

    closed spec fn view(&self) -> Seq<Clock> {
        self.clocks@
    }
}

impl ClockCollection {
    /// Builds a collection, keeping the first main clock (or the first clock) as main.
    pub fn new(clocks: Vec<Clock>) -> (result: Self)
        requires
            clocks@.len() > 0,
        ensures
            result@ == only_main(clocks@, first_main_index(clocks@)),
            has_single_main(result@),
    {
        let ghost before = clocks@;
        let mut clocks = clocks;
        normalize_main_clock(&mut clocks);
        let result = ClockCollection { clocks };
        proof {
            lemma_first_main_index(before);
            lemma_only_main_single(before, first_main_index(before));
        }
        result
    }

    /// The clocks in display order.
    pub fn as_slice(&self) -> (clocks: &[Clock])
        ensures
            clocks@ == self@,
    {
        self.clocks.as_slice()
    }

    /// Appends a clock and returns its index.
    pub fn add(&mut self, clock: Clock) -> (index: usize)
        requires
            old(self)@.len() < usize::MAX,
        ensures
            final(self)@ == old(self)@.push(clock),
            index == old(self)@.len(),
    {
        self.clocks.push(clock);
        self.clocks.len() - 1
    }

    /// Removes a clock unless it is the last one; a removed main clock hands
    /// the main flag to the first remaining clock.
    pub fn remove(&mut self, index: usize) -> (removed: bool)
        ensures
            removed == can_remove(old(self)@, index as int),
            !removed ==> final(self)@ == old(self)@,
            removed ==> final(self)@ == removed_clocks(old(self)@, index as int),
    {
        if self.clocks.len() == 1 || index >= self.clocks.len() {
            return false;
        }
        let ghost before = self.clocks@;
        let removed = self.clocks.remove(index);
        if removed.is_main {
            self.clocks[0].is_main = true;
        }
        assert(self.clocks@ =~= removed_clocks(before, index as int));
        true
    }

    /// Swaps two distinct clocks.
    pub fn move_to(&mut self, from: usize, to: usize) -> (moved: bool)
        ensures
            moved == can_move(old(self)@, from as int, to as int),
            !moved ==> final(self)@ == old(self)@,
            moved ==> final(self)@ == swapped_clocks(old(self)@, from as int, to as int),
    {
        if from >= self.clocks.len() || to >= self.clocks.len() || from == to {
            return false;
        }
        swap_clocks(&mut self.clocks, from, to);
        true
    }

    /// Makes the clock at `index` the only main clock.
    pub fn set_main(&mut self, index: usize) -> (changed: bool)
        ensures
            changed == (index < old(self)@.len()),
            !changed ==> final(self)@ == old(self)@,
            changed ==> final(self)@ == only_main(old(self)@, index as int),
    {
        if index >= self.clocks.len() {
            return false;
        }
        let ghost before = self.clocks@;
        let mut current: usize = 0;
        while current < self.clocks.len()
            invariant
                self.clocks@.len() == before.len(),
                before.len() > 0,
                0 <= current <= before.len(),
                forall|i: int| 0 <= i < current ==> self.clocks@[i] == with_main(before[i], i == index),
                forall|i: int| current <= i < before.len() ==> self.clocks@[i] == before[i],
            decreases before.len() - current,
        {
            self.clocks[current].is_main = current == index;
            current = current + 1;
        }
        assert(self.clocks@ =~= only_main(before, index as int));
        true
    }

    /// Gives back the clocks.
    pub fn into_vec(self) -> (clocks: Vec<Clock>)
        ensures
            clocks@ == self@,
    {
        self.clocks
    }
}

/// Exchanges two distinct positions of a vector.
fn swap_clocks(clocks: &mut Vec<Clock>, a: usize, b: usize)
    requires
        a < old(clocks)@.len(),
        b < old(clocks)@.len(),
        a != b,
    ensures
        final(clocks)@ == old(clocks)@.update(a as int, old(clocks)@[b as int]).update(
            b as int,
            old(clocks)@[a as int],
        ),
{
    let (low, high) = if a < b { (a, b) } else { (b, a) };
    let ghost before = clocks@;
    let upper = clocks.remove(high);
    let lower = clocks.remove(low);
    clocks.insert(low, upper);
    clocks.insert(high, lower);
    assert(clocks@ =~= before.update(a as int, before[b as int]).update(b as int, before[a as int]));
}

/// Keeps only the first main clock (or the first clock when none is main) as main.
pub fn normalize_main_clock(clocks: &mut Vec<Clock>)
    ensures
        final(clocks)@ == only_main(old(clocks)@, first_main_index(old(clocks)@)),
{
    let ghost before = clocks@;
    let mut main_index: usize = 0;
    let mut found = false;
    let mut i: usize = 0;
    while i < clocks.len()
        invariant
            clocks@ == before,
            0 <= i <= before.len(),
            found ==> main_index < i && before[main_index as int].is_main,
            found ==> forall|j: int| 0 <= j < main_index ==> !#[trigger] before[j].is_main,
            !found ==> forall|j: int| 0 <= j < i ==> !#[trigger] before[j].is_main,
            !found ==> main_index == 0,
        decreases before.len() - i,
    {
        if !found && clocks[i].is_main {
            main_index = i;
            found = true;
        }
        i = i + 1;
    }
    proof {
        if before.len() > 0 {
            lemma_first_main_index(before);
            if found {
                assert(exists|j: int| 0 <= j < before.len() && before[j].is_main);
                let f = first_main_index(before);
                if f < main_index {
                    assert(!before[f].is_main);
                }
                if f > main_index {
                }
            }
        }
    }
    let mut current: usize = 0;
    while current < clocks.len()
        invariant
            clocks@.len() == before.len(),
            0 <= current <= before.len(),
            main_index as int == first_main_index(before),
            forall|j: int| 0 <= j < current ==> clocks@[j] == with_main(before[j], j == main_index),
            forall|j: int| current <= j < before.len() ==> clocks@[j] == before[j],
        decreases before.len() - current,
    {
        clocks[current].is_main = current == main_index;
        current = current + 1;
    }
    assert(clocks@ =~= only_main(before, first_main_index(before)));
}

/// Clock-editing intents issued by presentation adapters.
pub enum ClockCommand {
    Add(Clock),
    Remove { index: usize },
    Move { from: usize, to: usize },
    SetMain { index: usize },
}

/// The clocks and the change flag that a command yields on a non-empty list:
/// the list is first normalized to one main clock, then the command applies.
/// A clock added with the main flag becomes the one main clock.
pub open spec fn clock_command_outcome(clocks: Seq<Clock>, command: ClockCommand) -> (Seq<
    Clock,
>, bool) {
    let normal = only_main(clocks, first_main_index(clocks));
    match command {
        ClockCommand::Add(clock) => if clock.is_main {
            (only_main(normal.push(clock), normal.len() as int), true)
        } else {
            (normal.push(clock), true)
        },
        ClockCommand::Remove { index } => if can_remove(normal, index as int) {
            (removed_clocks(normal, index as int), true)
        } else {
            (normal, false)
        },
        ClockCommand::Move { from, to } => if can_move(normal, from as int, to as int) {
            (swapped_clocks(normal, from as int, to as int), true)
        } else {
            (normal, false)
        },
        ClockCommand::SetMain { index } => if 0 <= index < normal.len() {
            (only_main(normal, index as int), true)
        } else {
            (normal, false)
        },
    }
}

/// Applies one clock-editing command; an empty list is left untouched.
pub fn execute_clock_command(clocks: &mut Vec<Clock>, command: ClockCommand) -> (changed: bool)
    requires
        old(clocks)@.len() < usize::MAX,
    ensures
        old(clocks)@.len() == 0 ==> !changed && final(clocks)@ == old(clocks)@,
        old(clocks)@.len() > 0 ==> (final(clocks)@, changed) == clock_command_outcome(
            old(clocks)@,
            command,
        ),
{
    if clocks.len() == 0 {
        return false;
    }
    let mut current: Vec<Clock> = Vec::new();
    std::mem::swap(&mut current, clocks);
    let mut collection = ClockCollection::new(current);
    let changed = match command {
        ClockCommand::Add(clock) => {
            let is_main = clock.is_main;
            let index = collection.add(clock);
            if is_main {
                collection.set_main(index);
            }
            true
        },
        ClockCommand::Remove { index } => collection.remove(index),
        ClockCommand::Move { from, to } => collection.move_to(from, to),
        ClockCommand::SetMain { index } => collection.set_main(index),
    };
    *clocks = collection.into_vec();
    changed
}

/// Every clock command applied to a non-empty list leaves a non-empty list:
/// in particular a remove command can never delete the last clock.
pub proof fn lemma_clock_command_keeps_a_clock(clocks: Seq<Clock>, command: ClockCommand)
    requires
        clocks.len() > 0,
    ensures
        clock_command_outcome(clocks, command).0.len() > 0,
{
}

/// After any clock command on a non-empty list exactly one clock is the main
/// clock.
pub proof fn lemma_clock_command_single_main(clocks: Seq<Clock>, command: ClockCommand)
    requires
        clocks.len() > 0,
    ensures
        has_single_main(clock_command_outcome(clocks, command).0),
{
    let m = first_main_index(clocks);
    lemma_first_main_index(clocks);
    let normal = only_main(clocks, m);
    lemma_only_main_single(clocks, m);
    let out = clock_command_outcome(clocks, command).0;
    match command {
        ClockCommand::Add(clock) => {
            if clock.is_main {
                lemma_only_main_single(normal.push(clock), normal.len() as int);
            } else {
                assert(out[m].is_main);
                assert forall|i: int| 0 <= i < out.len() && i != m implies !#[trigger] out[i].is_main by {
                    if i < normal.len() {
                        assert(out[i] == normal[i]);
                    }
                }
            }
        },
        ClockCommand::Remove { index } => {
            if can_remove(normal, index as int) {
                let idx = index as int;
                let rest = normal.remove(idx);
                if normal[idx].is_main {
                    assert(idx == m);
                    assert(out[0].is_main);
                    assert forall|i: int| 0 <= i < out.len() && i != 0 implies !#[trigger] out[i].is_main by {
                        assert(out[i] == rest[i]);
                        if i < idx {
                            assert(rest[i] == normal[i]);
                        } else {
                            assert(rest[i] == normal[i + 1]);
                        }
                    }
                } else {
                    let w = if m < idx { m } else { m - 1 };
                    assert(out[w] == normal[m]);
                    assert forall|i: int| 0 <= i < out.len() && i != w implies !#[trigger] out[i].is_main by {
                        if i < idx {
                            assert(out[i] == normal[i]);
                        } else {
                            assert(out[i] == normal[i + 1]);
                        }
                    }
                }
            }
        },
        ClockCommand::Move { from, to } => {
            if can_move(normal, from as int, to as int) {
                let f = from as int;
                let t = to as int;
                let w = if m == f { t } else if m == t { f } else { m };
                assert(out[w].is_main);
                assert forall|i: int| 0 <= i < out.len() && i != w implies !#[trigger] out[i].is_main by {
                    if i == f {
                        assert(out[i] == normal[t]);
                    } else if i == t {
                        assert(out[i] == normal[f]);
                    } else {
                        assert(out[i] == normal[i]);
                    }
                }
            }
        },
        ClockCommand::SetMain { index } => {
            if 0 <= index < normal.len() {
                lemma_only_main_single(normal, index as int);
            }
        },
    }
}

} // verus!
