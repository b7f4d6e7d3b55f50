//! The table of slots: which entries have one, and what each holds.
//!
//! One slot per entry the catalog carries, empty or holding what loading
//! that entry left behind. A reload gives the new catalog's entries slots
//! and forgets a dropped entry's slot only when it is empty: a slot that
//! still holds a child keeps it until the child goes, because a slot taken
//! out of the table is a handle nothing will ever reach again. So a request
//! still holding the catalog from before a reload finds a dropped entry
//! with nothing loaded, which is the truth, and cannot load into it.
//!
//! What a slot holds, and the locks the table sits behind, are the
//! caller's; which slots there are and what each holds is decided here.

use vstd::prelude::*;

use crate::catalog::listing::Catalog;
use crate::catalog::listing::contains_text;
use crate::proxy::reload::{ids, ids_of};
use crate::text::{same_text, views};

verus! {

/// One slot per entry, in the order the slots were made, each empty or
/// holding what loading its entry left behind.
pub struct SlotTable<T> {
    slots: Vec<(String, Option<T>)>,
}

/// Where the slot for an identifier stands, if the table has one: the first
/// of that identifier.
pub open spec fn place_in<T>(slots: Seq<(Seq<char>, Option<T>)>, id: Seq<char>) -> Option<int>
    decreases slots.len(),
{
    if slots.len() == 0 {
        None
    } else if slots[0].0 == id {
        Some(0)
    } else {
        match place_in(slots.drop_first(), id) {
            Some(i) => Some(i + 1),
            None => None,
        }
    }
}

/// The place found is the first slot of that identifier, and none is found
/// where there is none.
proof fn lemma_place_in<T>(slots: Seq<(Seq<char>, Option<T>)>, id: Seq<char>)
    ensures
        match place_in(slots, id) {
            Some(i) => 0 <= i < slots.len() && slots[i].0 == id && forall|j: int| 0 <= j < i ==> slots[j].0 != id,
            None => forall|j: int| 0 <= j < slots.len() ==> slots[j].0 != id,
        },
    decreases slots.len(),
{
    if slots.len() > 0 && slots[0].0 != id {
        let rest = slots.drop_first();
        lemma_place_in(rest, id);
        match place_in(rest, id) {
            Some(i) => {
                assert forall|j: int| 0 <= j < i + 1 implies slots[j].0 != id by {
                    if j > 0 {
                        assert(slots[j] == rest[j - 1]);
                    }
                }
            },
            None => {
                assert forall|j: int| 0 <= j < slots.len() implies slots[j].0 != id by {
                    if j > 0 {
                        assert(slots[j] == rest[j - 1]);
                    }
                }
            },
        }
    }
}

/// The slot for an identifier, if the table has one.
pub open spec fn slot_in<T>(slots: Seq<(Seq<char>, Option<T>)>, id: Seq<char>) -> Option<Option<T>> {
    match place_in(slots, id) {
        Some(i) => Some(slots[i].1),
        None => None,
    }
}

/// The slots once each of these identifiers has one: a new, empty slot is
/// made, last, for each that has none.
pub open spec fn with_slots<T>(slots: Seq<(Seq<char>, Option<T>)>, ids: Seq<Seq<char>>) -> Seq<(Seq<char>, Option<T>)>
    decreases ids.len(),
{
    if ids.len() == 0 {
        slots
    } else {
        let made = with_slots(slots, ids.drop_last());
        if place_in(made, ids.last()) is Some {
            made
        } else {
            made.push((ids.last(), None))
        }
    }
}

/// The slots a catalog of these identifiers keeps, in order: its own, and
/// any other that still holds something.
pub open spec fn kept<T>(slots: Seq<(Seq<char>, Option<T>)>, ids: Seq<Seq<char>>) -> Seq<(Seq<char>, Option<T>)>
    decreases slots.len(),
{
    if slots.len() == 0 {
        Seq::empty()
    } else {
        let rest = kept(slots.drop_last(), ids);
        if ids.contains(slots.last().0) || slots.last().1 is Some {
            rest.push(slots.last())
        } else {
            rest
        }
    }
}

/// The slots once a catalog of these identifiers is read: each of its
/// entries has a slot, and a slot of an entry it dropped goes only when it
/// holds nothing.
pub open spec fn resynced<T>(slots: Seq<(Seq<char>, Option<T>)>, ids: Seq<Seq<char>>) -> Seq<(Seq<char>, Option<T>)> {
    kept(with_slots(slots, ids), ids)
}

/// The identifiers, in the order given, whose slot holds something.
pub open spec fn loaded_in<T>(slots: Seq<(Seq<char>, Option<T>)>, ids: Seq<Seq<char>>) -> Seq<Seq<char>>
    decreases ids.len(),
{
    if ids.len() == 0 {
        Seq::empty()
    } else {
        let rest = loaded_in(slots, ids.drop_last());
        match slot_in(slots, ids.last()) {
            Some(Some(_)) => rest.push(ids.last()),
            _ => rest,
        }
    }
}

/// What the slots hold, in order.
pub open spec fn held_in<T>(slots: Seq<(Seq<char>, Option<T>)>) -> Seq<T>
    decreases slots.len(),
{
    if slots.len() == 0 {
        Seq::empty()
    } else {
        let rest = held_in(slots.drop_last());
        match slots.last().1 {
            Some(x) => rest.push(x),
            None => rest,
        }
    }
}

/// Slots as plain values.
pub open spec fn table_view<T>(slots: Seq<(String, Option<T>)>) -> Seq<(Seq<char>, Option<T>)> {
    slots.map_values(|s: (String, Option<T>)| (s.0@, s.1))
}

/// The slots, each emptied.
pub open spec fn emptied<T>(slots: Seq<(Seq<char>, Option<T>)>) -> Seq<(Seq<char>, Option<T>)> {
    slots.map_values(|s: (Seq<char>, Option<T>)| (s.0, None))
}

/// A place found in a table is found again once slots are made after it.
proof fn lemma_place_kept_after<T>(v: Seq<(Seq<char>, Option<T>)>, w: Seq<(Seq<char>, Option<T>)>, id: Seq<char>)
    requires
        place_in(v, id) is Some,
    ensures
        place_in(v + w, id) == place_in(v, id),
{
    lemma_place_in(v, id);
    lemma_place_in(v + w, id);
    let i = place_in(v, id)->Some_0;
    assert((v + w)[i].0 == id);
    match place_in(v + w, id) {
        Some(k) => {
            if k < i {
                assert((v + w)[k] == v[k]);
            } else if k > i {
                assert((v + w)[i].0 != id);
            }
        },
        None => {
            assert((v + w)[i].0 != id);
        },
    }
}

/// Slots are made only after those already there, and every identifier
/// asked for has one after.
proof fn lemma_with_slots<T>(v: Seq<(Seq<char>, Option<T>)>, ids: Seq<Seq<char>>)
    ensures
        with_slots(v, ids).len() >= v.len(),
        with_slots(v, ids).take(v.len() as int) == v,
        forall|k: int| 0 <= k < ids.len() ==> (#[trigger] place_in(with_slots(v, ids), ids[k])) is Some,
    decreases ids.len(),
{
    if ids.len() > 0 {
        let before = ids.drop_last();
        lemma_with_slots(v, before);
        let made = with_slots(v, before);
        let last = ids.last();
        if place_in(made, last) is None {
            let after = made.push((last, None));
            assert(after.take(v.len() as int) =~= made.take(v.len() as int));
            assert forall|k: int| 0 <= k < ids.len() implies (#[trigger] place_in(after, ids[k])) is Some by {
                if k < ids.len() - 1 {
                    assert(before[k] == ids[k]);
                    assert(place_in(made, before[k]) is Some);
                    assert(after =~= made + seq![(last, None)]);
                    lemma_place_kept_after(made, seq![(last, None)], ids[k]);
                } else {
                    lemma_place_in(after, last);
                    assert(after[made.len() as int].0 == last);
                }
            }
        } else {
            assert forall|k: int| 0 <= k < ids.len() implies (#[trigger] place_in(made, ids[k])) is Some by {
                if k < ids.len() - 1 {
                    assert(before[k] == ids[k]);
                }
            }
        }
    }
}

/// What a catalog's reading keeps: each slot of its own entries, and each
/// that holds something.
proof fn lemma_kept_keeps<T>(w: Seq<(Seq<char>, Option<T>)>, ids: Seq<Seq<char>>, i: int)
    requires
        0 <= i < w.len(),
        ids.contains(w[i].0) || w[i].1 is Some,
    ensures
        kept(w, ids).contains(w[i]),
    decreases w.len(),
{
    let rest = kept(w.drop_last(), ids);
    if i == w.len() - 1 {
        assert(kept(w, ids)[rest.len() as int] == w[i]);
    } else {
        lemma_kept_keeps(w.drop_last(), ids, i);
        assert(w.drop_last()[i] == w[i]);
        let j = choose|j: int| 0 <= j < rest.len() && rest[j] == w[i];
        if ids.contains(w.last().0) || w.last().1 is Some {
            assert(kept(w, ids)[j] == w[i]);
        }
    }
}

/// A reading of a catalog gives every entry it carries a slot.
pub proof fn law_every_entry_a_catalog_carries_has_a_slot<T>(slots: Seq<(Seq<char>, Option<T>)>, ids: Seq<Seq<char>>, id: Seq<char>)
    requires
        ids.contains(id),
    ensures
        slot_in(resynced(slots, ids), id) is Some,
{
    lemma_with_slots(slots, ids);
    let w = with_slots(slots, ids);
    let k = choose|k: int| 0 <= k < ids.len() && ids[k] == id;
    assert(place_in(w, ids[k]) is Some);
    lemma_place_in(w, id);
    let i = place_in(w, id)->Some_0;
    lemma_kept_keeps(w, ids, i);
    let r = resynced(slots, ids);
    let j = choose|j: int| 0 <= j < r.len() && r[j] == w[i];
    lemma_place_in(r, id);
    if place_in(r, id) is None {
        assert(r[j].0 == id);
    }
}

/// A reading of a catalog never forgets a slot that holds something, though
/// the catalog dropped its entry: what a slot holds stays in the table until
/// the slot is emptied.
pub proof fn law_a_slot_that_holds_something_is_never_forgotten<T>(
    slots: Seq<(Seq<char>, Option<T>)>,
    ids: Seq<Seq<char>>,
    i: int,
)
    requires
        0 <= i < slots.len(),
        slots[i].1 is Some,
    ensures
        resynced(slots, ids).contains(slots[i]),
{
    lemma_with_slots(slots, ids);
    let w = with_slots(slots, ids);
    assert(w.take(slots.len() as int)[i] == w[i]);
    lemma_kept_keeps(w, ids, i);
}

proof fn lemma_loaded_in<T>(slots: Seq<(Seq<char>, Option<T>)>, ids: Seq<Seq<char>>, id: Seq<char>)
    requires
        loaded_in(slots, ids).contains(id),
    ensures
        slot_in(slots, id) matches Some(Some(_)),
    decreases ids.len(),
{
    let rest = loaded_in(slots, ids.drop_last());
    match slot_in(slots, ids.last()) {
        Some(Some(_)) => {
            if id != ids.last() {
                let k = choose|k: int| 0 <= k < loaded_in(slots, ids).len() && loaded_in(slots, ids)[k] == id;
                assert(rest[k] == id);
                lemma_loaded_in(slots, ids.drop_last(), id);
            }
        },
        _ => lemma_loaded_in(slots, ids.drop_last(), id),
    }
}

/// A reading of a new catalog keeps every child the old one had loaded:
/// whatever the slot of a loaded entry held is still in the table, under
/// the same identifier, though the new catalog dropped the entry.
pub proof fn law_a_reload_keeps_every_loaded_child<T>(
    slots: Seq<(Seq<char>, Option<T>)>,
    before: Seq<Seq<char>>,
    after: Seq<Seq<char>>,
    id: Seq<char>,
)
    requires
        loaded_in(slots, before).contains(id),
    ensures
        slot_in(slots, id) matches Some(Some(x)) && resynced(slots, after).contains((id, Some(x))),
{
    lemma_loaded_in(slots, before, id);
    lemma_place_in(slots, id);
    let i = place_in(slots, id)->Some_0;
    law_a_slot_that_holds_something_is_never_forgotten(slots, after, i);
}

impl<T> SlotTable<T> {
    /// The slots, by identifier, in the order they were made.
    pub closed spec fn slots(&self) -> Seq<(Seq<char>, Option<T>)> {
        table_view(self.slots@)
    }

    /// A table with no slots.
    pub fn new() -> (table: SlotTable<T>)
        ensures
            table.slots() == Seq::<(Seq<char>, Option<T>)>::empty(),
    {
        let table = SlotTable { slots: Vec::new() };
        assert(table.slots() =~= Seq::<(Seq<char>, Option<T>)>::empty());
        table
    }

    /// Where the slot for an identifier stands.
    fn position(&self, id: &str) -> (at: Option<usize>)
        ensures
            at matches Some(i) ==> place_in(self.slots(), id@) == Some(i as int) && i < self.slots@.len()
                && self.slots()[i as int].0 == id@,
            at is None ==> place_in(self.slots(), id@) is None,
    {
        let ghost v = self.slots();
        proof {
            lemma_place_in(v, id@);
        }
        let mut i: usize = 0;
        while i < self.slots.len()
            invariant
                i <= self.slots@.len(),
                v == self.slots(),
                forall|j: int| 0 <= j < i ==> v[j].0 != id@,
            decreases self.slots@.len() - i,
        {
            if same_text(self.slots[i].0.as_str(), id) {
                assert(v[i as int].0 == id@);
                proof {
                    lemma_place_in(v, id@);
                    match place_in(v, id@) {
                        Some(k) => {
                            if k < i {
                                assert(v[k].0 != id@);
                            } else if k > i {
                                assert(v[i as int].0 != id@);
                            }
                        },
                        None => assert(v[i as int].0 != id@),
                    }
                }
                return Some(i);
            }
            i = i + 1;
        }
        proof {
            lemma_place_in(v, id@);
            if let Some(k) = place_in(v, id@) {
                assert(v[k].0 != id@);
            }
        }
        None
    }

    /// Whether the table has a slot for this identifier.
    pub fn has_slot(&self, id: &str) -> (has: bool)
        ensures
            has == (slot_in(self.slots(), id@) is Some),
    {
        self.position(id).is_some()
    }

    /// What the slot for this identifier holds, if it has a slot that holds
    /// something.
    pub fn held(&self, id: &str) -> (held: Option<&T>)
        ensures
            match slot_in(self.slots(), id@) {
                Some(Some(x)) => held == Some(&x),
                _ => held is None,
            },
    {
        let at = self.position(id);
        proof {
            if let Some(i) = at {
                assert(place_in(self.slots(), id@) == Some(i as int));
                assert(self.slots()[i as int].1 == self.slots@[i as int].1);
            }
        }
        match at {
            Some(i) => match &self.slots[i].1 {
                Some(x) => Some(x),
                None => None,
            },
            None => None,
        }
    }

    /// Fills the slot for this identifier, handing back what it held; or
    /// hands the value back refused when the table has no slot for it, as
    /// after a reload dropped its entry.
    pub fn put(&mut self, id: &str, value: T) -> (put: Result<Option<T>, T>)
        ensures
            match place_in(old(self).slots(), id@) {
                Some(i) => put == Ok::<Option<T>, T>(old(self).slots()[i].1) && final(self).slots() == old(
                    self,
                ).slots().update(i, (id@, Some(value))),
                None => put == Err::<Option<T>, T>(value) && final(self).slots() == old(self).slots(),
            },
    {
        match self.position(id) {
            Some(i) => {
                let ghost before = self.slots();
                assert(place_in(before, id@) == Some(i as int));
                let (name, was) = self.slots.remove(i);
                assert(before[i as int] == (name@, was));
                self.slots.insert(i, (name, Some(value)));
                assert(self.slots() =~= before.update(i as int, (id@, Some(value))));
                Ok(was)
            },
            None => Err(value),
        }
    }

    /// Empties the slot for this identifier, handing back what it held.
    pub fn take(&mut self, id: &str) -> (taken: Option<T>)
        ensures
            match place_in(old(self).slots(), id@) {
                Some(i) => taken == old(self).slots()[i].1 && final(self).slots() == old(self).slots().update(
                    i,
                    (id@, None),
                ),
                None => taken is None && final(self).slots() == old(self).slots(),
            },
    {
        match self.position(id) {
            Some(i) => {
                let ghost before = self.slots();
                assert(place_in(before, id@) == Some(i as int));
                let (name, was) = self.slots.remove(i);
                assert(before[i as int] == (name@, was));
                self.slots.insert(i, (name, None));
                assert(self.slots() =~= before.update(i as int, (id@, None)));
                was
            },
            None => None,
        }
    }

    /// One empty slot for each entry a catalog carries.
    pub fn for_catalog(catalog: &Catalog) -> (table: SlotTable<T>)
        ensures
            table.slots() == resynced(Seq::<(Seq<char>, Option<T>)>::empty(), ids(catalog.entries@)),
    {
        let mut table = SlotTable::new();
        table.resync(catalog);
        table
    }

    /// Gives a newly read catalog's entries slots, and forgets the slots of
    /// the entries it dropped that hold nothing; a slot still holding
    /// something stays until it is emptied.
    pub fn resync(&mut self, catalog: &Catalog)
        ensures
            final(self).slots() == resynced(old(self).slots(), ids(catalog.entries@)),
    {
        let ghost start = self.slots();
        let ghost wanted = ids(catalog.entries@);
        let mut i: usize = 0;
        assert(wanted.take(0) =~= Seq::<Seq<char>>::empty());
        while i < catalog.entries.len()
            invariant
                i <= catalog.entries@.len(),
                wanted == ids(catalog.entries@),
                self.slots() == with_slots(start, wanted.take(i as int)),
            decreases catalog.entries@.len() - i,
        {
            assert(wanted.take(i + 1).drop_last() =~= wanted.take(i as int));
            assert(wanted.take(i + 1).last() == catalog.entries@[i as int].id@);
            if !self.has_slot(catalog.entries[i].id.as_str()) {
                let ghost before = self.slots();
                let id = catalog.entries[i].id.clone();
                self.slots.push((id, None));
                assert(self.slots() =~= before.push((catalog.entries@[i as int].id@, None)));
            }
            i = i + 1;
        }
        assert(wanted.take(i as int) =~= wanted);
        let all_ids = ids_of(catalog);
        let mut rest: Vec<(String, Option<T>)> = Vec::new();
        std::mem::swap(&mut rest, &mut self.slots);
        let ghost all = table_view(rest@);
        assert(all == with_slots(start, wanted));
        let ghost n = all.len();
        assert(all.skip(0) =~= all);
        assert(self.slots() =~= kept(all.take(0), wanted));
        while rest.len() > 0
            invariant
                n == all.len(),
                rest@.len() <= n,
                views(all_ids@) == wanted,
                table_view(rest@) == all.skip(n - rest@.len()),
                self.slots() == kept(all.take(n - rest@.len()), wanted),
            decreases rest@.len(),
        {
            let ghost k = n - rest@.len();
            let ghost before = self.slots();
            let ghost old_rest = rest@;
            let s = rest.remove(0);
            assert forall|j: int| 0 <= j < rest@.len() implies table_view(rest@)[j] == all.skip(k + 1)[j] by {
                assert(rest@[j] == old_rest[j + 1]);
                assert(table_view(old_rest)[j + 1] == all.skip(k)[j + 1]);
            }
            assert(all.skip(k)[0] == all[k]);
            assert(all[k] == (s.0@, s.1));
            assert(all.take(k + 1).drop_last() =~= all.take(k));
            assert(all.take(k + 1).last() == all[k]);
            assert(table_view(rest@) =~= all.skip(k + 1));
            let keep = s.1.is_some() || contains_text(&all_ids, s.0.as_str());
            if keep {
                self.slots.push(s);
                assert(self.slots() =~= before.push(all[k]));
            }
        }
        assert(all.take(n as int) =~= all);
    }

    /// The entries of a catalog, in its order, whose slot holds something.
    /// An entry a reload dropped has no slot, and so is not loaded.
    pub fn loaded(&self, catalog: &Catalog) -> (loaded: Vec<String>)
        ensures
            views(loaded@) == loaded_in(self.slots(), ids(catalog.entries@)),
    {
        let ghost wanted = ids(catalog.entries@);
        let mut out: Vec<String> = Vec::new();
        let mut i: usize = 0;
        assert(wanted.take(0) =~= Seq::<Seq<char>>::empty());
        assert(views(out@) =~= Seq::<Seq<char>>::empty());
        while i < catalog.entries.len()
            invariant
                i <= catalog.entries@.len(),
                wanted == ids(catalog.entries@),
                views(out@) == loaded_in(self.slots(), wanted.take(i as int)),
            decreases catalog.entries@.len() - i,
        {
            assert(wanted.take(i + 1).drop_last() =~= wanted.take(i as int));
            assert(wanted.take(i + 1).last() == catalog.entries@[i as int].id@);
            if self.held(catalog.entries[i].id.as_str()).is_some() {
                let ghost before = views(out@);
                out.push(catalog.entries[i].id.clone());
                assert(views(out@) =~= before.push(catalog.entries@[i as int].id@));
            }
            i = i + 1;
        }
        assert(wanted.take(i as int) =~= wanted);
        out
    }

    /// Empties every slot, handing back what they held, in order.
    pub fn clear(&mut self) -> (held: Vec<T>)
        ensures
            final(self).slots() == emptied(old(self).slots()),
            held@ == held_in(old(self).slots()),
    {
        let mut rest: Vec<(String, Option<T>)> = Vec::new();
        std::mem::swap(&mut rest, &mut self.slots);
        let ghost all = table_view(rest@);
        let ghost n = all.len();
        let mut out: Vec<T> = Vec::new();
        assert(all.skip(0) =~= all);
        assert(self.slots() =~= emptied(all.take(0)));
        assert(out@ =~= held_in(all.take(0)));
        while rest.len() > 0
            invariant
                n == all.len(),
                rest@.len() <= n,
                table_view(rest@) == all.skip(n - rest@.len()),
                self.slots() == emptied(all.take(n - rest@.len())),
                out@ == held_in(all.take(n - rest@.len())),
            decreases rest@.len(),
        {
            let ghost k = n - rest@.len();
            let ghost before = self.slots();
            let ghost had = out@;
            let ghost old_rest = rest@;
            let (name, was) = rest.remove(0);
            assert forall|j: int| 0 <= j < rest@.len() implies table_view(rest@)[j] == all.skip(k + 1)[j] by {
                assert(rest@[j] == old_rest[j + 1]);
                assert(table_view(old_rest)[j + 1] == all.skip(k)[j + 1]);
            }
            assert(all.skip(k)[0] == all[k]);
            assert(all[k] == (name@, was));
            assert(all.take(k + 1).drop_last() =~= all.take(k));
            assert(all.take(k + 1).last() == all[k]);
            assert(table_view(rest@) =~= all.skip(k + 1));
            self.slots.push((name, None));
            assert(self.slots() =~= before.push((all[k].0, None)));
            assert(emptied(all.take(k + 1)) =~= emptied(all.take(k)).push((all[k].0, None)));
            match was {
                Some(x) => {
                    out.push(x);
                },
                None => {},
            }
            assert(out@ =~= held_in(all.take(k + 1)));
        }
        assert(all.take(n as int) =~= all);
        out
    }
}

} // verus!
