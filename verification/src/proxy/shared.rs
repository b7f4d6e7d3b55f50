//! What the router serves at one moment: the catalog, a slot for each of
//! its entries, and the line for room, which counts the catalog's swaps.
//!
//! Re-reading the catalog is here. Nothing that is running is stopped:
//! slots appear for entries the file gained and go for entries it lost,
//! unless a lost entry still holds a child -- that slot stays until the
//! child goes, because forgetting a running process is how one is orphaned.
//! A file that cannot be parsed changes nothing: the catalog that was
//! serving keeps serving, for a router that emptied itself because a file
//! was briefly mid-write would take every model down over a text editor.
//! Reading the file is the caller's; what its text does is decided here.

use vstd::prelude::*;

use crate::catalog::document::document_of;
use crate::catalog::listing::{read_as, Catalog};
use crate::catalog::Report;
use crate::proxy::queue::Queue;
use crate::proxy::reload::{changes, ids, missing_from, superseded_of, Reloaded};
use crate::proxy::table::{law_a_reload_keeps_every_loaded_child, loaded_in, place_in, resynced, slot_in, SlotTable};
use crate::text::views;

verus! {

/// The catalog being served, the slots for its entries, and the line for
/// room.
pub struct Shared<T> {
    catalog: Catalog,
    slots: SlotTable<T>,
    queue: Queue,
}

/// What swapping in a newly read catalog does: the new catalog is served,
/// its entries have slots and the slots of dropped entries holding nothing
/// go, the line counts one more swap and is otherwise untouched, and the
/// reply names what was gained, what was lost, and which loaded entries now
/// run a definition the catalog no longer gives.
pub open spec fn swapped<T>(
    catalog: Catalog,
    slots: Seq<(Seq<char>, Option<T>)>,
    line: Seq<u64>,
    count: u64,
    parsed: Catalog,
    after_catalog: Catalog,
    after_slots: Seq<(Seq<char>, Option<T>)>,
    after_line: Seq<u64>,
    after_count: u64,
    changed: Reloaded,
) -> bool {
    &&& after_catalog == parsed
    &&& after_slots == resynced(slots, ids(parsed.entries@))
    &&& after_line == line
    &&& after_count == count + 1
    &&& views(changed.added@) == missing_from(ids(parsed.entries@), ids(catalog.entries@))
    &&& views(changed.removed@) == missing_from(ids(catalog.entries@), ids(parsed.entries@))
    &&& views(changed.superseded@) == superseded_of(
        catalog.entries@,
        parsed.entries@,
        loaded_in(slots, ids(catalog.entries@)),
    )
}

impl<T> Shared<T> {
    /// The catalog being served.
    pub closed spec fn spec_catalog(&self) -> Catalog {
        self.catalog
    }

    /// The slots, by identifier, in the order they were made.
    pub closed spec fn spec_slots(&self) -> Seq<(Seq<char>, Option<T>)> {
        self.slots.slots()
    }

    /// The requests waiting for room, oldest first.
    pub closed spec fn spec_line(&self) -> Seq<u64> {
        self.queue.line()
    }

    /// How often the catalog has been swapped.
    pub closed spec fn spec_reloads(&self) -> u64 {
        self.queue.reload_count()
    }

    /// Serving a catalog read for the first time: an empty slot for each of
    /// its entries, and nobody in line.
    pub fn new(catalog: Catalog) -> (shared: Shared<T>)
        ensures
            shared.spec_catalog() == catalog,
            shared.spec_slots() == resynced(Seq::<(Seq<char>, Option<T>)>::empty(), ids(catalog.entries@)),
            shared.spec_line() == Seq::<u64>::empty(),
            shared.spec_reloads() == 0,
    {
        let slots = SlotTable::for_catalog(&catalog);
        Shared { catalog, slots, queue: Queue::new() }
    }

    /// The catalog being served, as it stands now.
    pub fn catalog(&self) -> (catalog: &Catalog)
        ensures
            *catalog == self.spec_catalog(),
    {
        &self.catalog
    }

    /// How often the catalog has been swapped.
    pub fn reloads(&self) -> (n: u64)
        ensures
            n == self.spec_reloads(),
    {
        self.queue.reloads()
    }

    /// The entries of the catalog being served, in its order, that a child
    /// holds.
    pub fn loaded(&self) -> (loaded: Vec<String>)
        ensures
            views(loaded@) == loaded_in(self.spec_slots(), ids(self.spec_catalog().entries@)),
    {
        self.slots.loaded(&self.catalog)
    }

    /// What the slot for this identifier holds, if it has a slot that holds
    /// something.
    pub fn held(&self, id: &str) -> (held: Option<&T>)
        ensures
            match slot_in(self.spec_slots(), id@) {
                Some(Some(x)) => held == Some(&x),
                _ => held is None,
            },
    {
        self.slots.held(id)
    }

    /// Fills the slot for this identifier, handing back what it held; or
    /// hands the value back refused when there is no slot for it, as after a
    /// reload dropped its entry.
    pub fn put(&mut self, id: &str, value: T) -> (put: Result<Option<T>, T>)
        ensures
            final(self).spec_catalog() == old(self).spec_catalog(),
            final(self).spec_line() == old(self).spec_line(),
            final(self).spec_reloads() == old(self).spec_reloads(),
            match place_in(old(self).spec_slots(), id@) {
                Some(i) => put == Ok::<Option<T>, T>(old(self).spec_slots()[i].1) && final(self).spec_slots() == old(
                    self,
                ).spec_slots().update(i, (id@, Some(value))),
                None => put == Err::<Option<T>, T>(value) && final(self).spec_slots() == old(self).spec_slots(),
            },
    {
        self.slots.put(id, value)
    }

    /// Empties the slot for this identifier, handing back what it held.
    pub fn take(&mut self, id: &str) -> (taken: Option<T>)
        ensures
            final(self).spec_catalog() == old(self).spec_catalog(),
            final(self).spec_line() == old(self).spec_line(),
            final(self).spec_reloads() == old(self).spec_reloads(),
            match place_in(old(self).spec_slots(), id@) {
                Some(i) => taken == old(self).spec_slots()[i].1 && final(self).spec_slots() == old(
                    self,
                ).spec_slots().update(i, (id@, None)),
                None => taken is None && final(self).spec_slots() == old(self).spec_slots(),
            },
    {
        self.slots.take(id)
    }

    /// Swaps in a newly read catalog, and says what that changed.
    pub fn swap_in(&mut self, parsed: Catalog) -> (changed: Reloaded)
        requires
            old(self).spec_reloads() < u64::MAX,
        ensures
            swapped(
                old(self).spec_catalog(),
                old(self).spec_slots(),
                old(self).spec_line(),
                old(self).spec_reloads(),
                parsed,
                final(self).spec_catalog(),
                final(self).spec_slots(),
                final(self).spec_line(),
                final(self).spec_reloads(),
                changed,
            ),
    {
        let loaded = self.slots.loaded(&self.catalog);
        let changed = changes(&self.catalog, &parsed, &loaded);
        self.slots.resync(&parsed);
        self.queue.note_reload();
        self.catalog = parsed;
        changed
    }

    /// Serves what a catalog file's text now says, and says what that
    /// changed; or says why the text is no catalog, and changes nothing.
    pub fn reload(&mut self, text: &str) -> (reloaded: Result<Reloaded, Report>)
        requires
            old(self).spec_reloads() < u64::MAX,
        ensures
            match document_of(text@) {
                Err(m) => reloaded matches Err(r) && r.spec_problems() == seq![m],
                Ok(doc) => read_as(
                    doc,
                    match reloaded {
                        Ok(_) => Ok(final(self).spec_catalog()),
                        Err(r) => Err(r),
                    },
                ),
            },
            reloaded is Err ==> *final(self) == *old(self),
            reloaded matches Ok(changed) ==> swapped(
                old(self).spec_catalog(),
                old(self).spec_slots(),
                old(self).spec_line(),
                old(self).spec_reloads(),
                final(self).spec_catalog(),
                final(self).spec_catalog(),
                final(self).spec_slots(),
                final(self).spec_line(),
                final(self).spec_reloads(),
                changed,
            ),
    {
        match Catalog::parse(text) {
            Err(report) => Err(report),
            Ok(parsed) => Ok(self.swap_in(parsed)),
        }
    }
}

/// A reload stops no child: what the slot of every entry the old catalog
/// had loaded held is still in the table after the swap, under the same
/// identifier, whatever the new catalog says of that entry.
pub proof fn law_a_reload_stops_no_child<T>(
    catalog: Catalog,
    slots: Seq<(Seq<char>, Option<T>)>,
    line: Seq<u64>,
    count: u64,
    parsed: Catalog,
    after_catalog: Catalog,
    after_slots: Seq<(Seq<char>, Option<T>)>,
    after_line: Seq<u64>,
    after_count: u64,
    changed: Reloaded,
    id: Seq<char>,
)
    requires
        swapped(catalog, slots, line, count, parsed, after_catalog, after_slots, after_line, after_count, changed),
        loaded_in(slots, ids(catalog.entries@)).contains(id),
    ensures
        slot_in(slots, id) matches Some(Some(x)) && after_slots.contains((id, Some(x))),
{
    law_a_reload_keeps_every_loaded_child(slots, ids(catalog.entries@), ids(parsed.entries@), id);
}

} // verus!
