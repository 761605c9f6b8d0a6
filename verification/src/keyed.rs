//! Looking up and removing planner items by identifier.

use vstd::prelude::*;
use crate::ids::PlannerId;
use crate::planner::{Alarm, AlarmReceipt, AlarmSnooze, Event, Reminder, Task, Timer};

verus! {

/// Items that carry the identifier of a planner item.
pub trait Keyed {
    spec fn key(&self) -> Seq<char>;

    fn has_key(&self, id: &PlannerId) -> (same: bool)
        ensures
            same == (self.key() == id@),
    ;
}

impl Keyed for Reminder {
    open spec fn key(&self) -> Seq<char> {
        self.id@
    }

    fn has_key(&self, id: &PlannerId) -> (same: bool) {
        self.id.same(id)
    }
}

impl Keyed for Task {
    open spec fn key(&self) -> Seq<char> {
        self.id@
    }

    fn has_key(&self, id: &PlannerId) -> (same: bool) {
        self.id.same(id)
    }
}

impl Keyed for Event {
    open spec fn key(&self) -> Seq<char> {
        self.id@
    }

    fn has_key(&self, id: &PlannerId) -> (same: bool) {
        self.id.same(id)
    }
}

impl Keyed for Alarm {
    open spec fn key(&self) -> Seq<char> {
        self.id@
    }

    fn has_key(&self, id: &PlannerId) -> (same: bool) {
        self.id.same(id)
    }
}

impl Keyed for Timer {
    open spec fn key(&self) -> Seq<char> {
        self.id@
    }

    fn has_key(&self, id: &PlannerId) -> (same: bool) {
        self.id.same(id)
    }
}

impl Keyed for AlarmReceipt {
    open spec fn key(&self) -> Seq<char> {
        self.alarm_id@
    }

    fn has_key(&self, id: &PlannerId) -> (same: bool) {
        self.alarm_id.same(id)
    }
}

impl Keyed for AlarmSnooze {
    open spec fn key(&self) -> Seq<char> {
        self.alarm_id@
    }

    fn has_key(&self, id: &PlannerId) -> (same: bool) {
        self.alarm_id.same(id)
    }
}

/// Position of the first item with the given key, or the length when none has it.
pub open spec fn index_of_key<T: Keyed>(items: Seq<T>, key: Seq<char>) -> int
    decreases items.len(),
{
    if items.len() == 0 {
        0
    } else if items[0].key() == key {
        0
    } else {
        1 + index_of_key(items.drop_first(), key)
    }
}

/// The items whose key differs from `key`, in their original order.
pub open spec fn without_key<T: Keyed>(items: Seq<T>, key: Seq<char>) -> Seq<T> {
    items.filter(other_key::<T>(key))
}

/// Holds of the items whose key differs from `key`.
pub open spec fn other_key<T: Keyed>(key: Seq<char>) -> spec_fn(T) -> bool {
    |item: T| item.key() != key
}

/// The first-match position is a real position exactly when some item has
/// the key, and no earlier item has it.
pub proof fn lemma_index_of_key<T: Keyed>(items: Seq<T>, key: Seq<char>)
    ensures
        0 <= index_of_key(items, key) <= items.len(),
        index_of_key(items, key) < items.len() ==> items[index_of_key(items, key)].key() == key,
        forall|j: int| 0 <= j < index_of_key(items, key) ==> #[trigger] items[j].key() != key,
    decreases items.len(),
{
    if items.len() > 0 && items[0].key() != key {
        let rest = items.drop_first();
        lemma_index_of_key(rest, key);
        assert forall|j: int| 0 <= j < index_of_key(items, key) implies #[trigger] items[j].key()
            != key by {
            if j > 0 {
                assert(items[j] == rest[j - 1]);
            }
        }
    }
}

/// Finds the first item with the identifier.
pub fn find_by_key<T: Keyed>(items: &Vec<T>, id: &PlannerId) -> (index: usize)
    ensures
        index as int == index_of_key(items@, id@),
{
    proof {
        lemma_index_of_key(items@, id@);
    }
    let mut i: usize = 0;
    while i < items.len()
        invariant
            0 <= i <= items@.len(),
            i <= index_of_key(items@, id@),
            0 <= index_of_key(items@, id@) <= items@.len(),
            index_of_key(items@, id@) < items@.len() ==> items@[index_of_key(items@, id@)].key()
                == id@,
            forall|j: int| 0 <= j < index_of_key(items@, id@) ==> #[trigger] items@[j].key() != id@,
        decreases items@.len() - i,
    {
        if items[i].has_key(id) {
            return i;
        }
        i = i + 1;
    }
    i
}

/// Removes every item with the identifier.
pub fn remove_by_key<T: Keyed>(items: &mut Vec<T>, id: &PlannerId)
    ensures
        final(items)@ == without_key(old(items)@, id@),
{
    let ghost source = items@;
    let mut pending: Vec<T> = Vec::new();
    std::mem::swap(&mut pending, items);
    let mut kept: Vec<T> = Vec::new();
    let ghost mut done: int = 0;
    while pending.len() > 0
        invariant
            0 <= done <= source.len(),
            pending@ == source.subrange(done, source.len() as int),
            kept@ == source.subrange(0, done).filter(other_key::<T>(id@)),
        decreases pending@.len(),
    {
        let item = pending.remove(0);
        proof {
            assert(item == source[done]);
            assert(source.subrange(0, done + 1) =~= source.subrange(0, done).push(item));
            source.subrange(0, done).lemma_filter_push(item, other_key::<T>(id@));
            assert(other_key::<T>(id@)(item) == (item.key() != id@));
        }
        if !item.has_key(id) {
            kept.push(item);
        }
        proof {
            done = done + 1;
            assert(pending@ =~= source.subrange(done, source.len() as int));
        }
    }
    assert(source.subrange(0, done) =~= source);
    *items = kept;
}

} // verus!
