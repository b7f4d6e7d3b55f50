//! What re-reading the catalog changed, worked out from the catalog that was
//! serving, the one just read, and the entries a child holds.
//!
//! Nothing running is stopped by a reload. An entry the file gained can be
//! asked for at once and one it lost is refused from then on; an entry whose
//! child was running when its definition changed or was removed is
//! superseded: the process keeps the arguments it was started with until it
//! is next loaded, and until then the catalog and the process disagree.

use vstd::prelude::*;

use crate::catalog::entry::{path_text, setting_text, Entry, RelativePath};
use crate::catalog::listing::{contains_text, first_with, Catalog};
use crate::text::{push_joined, same_text, views};

verus! {

/// A catalog and the file it was read from: neither half is useful without
/// the other once a catalog can be re-read.
#[derive(Debug, Clone, PartialEq, Eq)]
pub struct Source {
    /// The catalog as it was parsed.
    pub catalog: Catalog,
    /// Where it was parsed from, which a reload reads again.
    pub path: String,
}

/// What a reload changed, so the reply can say rather than only succeed.
#[derive(Debug, Clone, PartialEq, Eq)]
pub struct Reloaded {
    /// Entries the new catalog has and the old one did not.
    pub added: Vec<String>,
    /// Entries the old catalog had and the new one does not.
    pub removed: Vec<String>,
    /// Entries whose definition changed, or which were removed, while a
    /// child was already running.
    pub superseded: Vec<String>,
}

/// The identifiers of a list of entries, in order.
pub open spec fn ids(entries: Seq<Entry>) -> Seq<Seq<char>> {
    entries.map_values(|e: Entry| e.id@)
}

/// The names of `a`, in order, that `b` does not hold.
pub open spec fn missing_from(a: Seq<Seq<char>>, b: Seq<Seq<char>>) -> Seq<Seq<char>>
    decreases a.len(),
{
    if a.len() == 0 {
        Seq::empty()
    } else {
        let rest = missing_from(a.drop_last(), b);
        if b.contains(a.last()) { rest } else { rest.push(a.last()) }
    }
}

/// Server flags as pairs of texts.
pub open spec fn flag_texts(flags: Seq<(String, String)>) -> Seq<(Seq<char>, Seq<char>)> {
    flags.map_values(|f: (String, String)| (f.0@, f.1@))
}

/// Whether two entries define the same thing, field by field: any field the
/// launcher reads is one a running process was started with.
pub open spec fn same_definition(a: Entry, b: Entry) -> bool {
    &&& a.id@ == b.id@
    &&& a.path.spec_text() == b.path.spec_text()
    &&& path_text(a.draft_path) == path_text(b.draft_path)
    &&& path_text(a.projector_path) == path_text(b.projector_path)
    &&& a.context_size == b.context_size
    &&& a.residency == b.residency
    &&& a.memory_estimate_mib == b.memory_estimate_mib
    &&& setting_text(a.reasoning_format) == setting_text(b.reasoning_format)
    &&& setting_text(a.reasoning_effort) == setting_text(b.reasoning_effort)
    &&& a.startup_timeout_seconds == b.startup_timeout_seconds
    &&& setting_text(a.runtime) == setting_text(b.runtime)
    &&& flag_texts(a.flags@) == flag_texts(b.flags@)
}

/// The entry a catalog carries under an identifier.
pub open spec fn entry_named(entries: Seq<Entry>, id: Seq<char>) -> Option<Entry> {
    match first_with(entries, id) {
        Some(i) => Some(entries[i]),
        None => None,
    }
}

/// Whether a loaded entry's running process no longer answers for what the
/// catalog now says: its definition changed, or the catalog dropped it.
#[verifier::opaque]
pub open spec fn is_superseded(previous: Seq<Entry>, parsed: Seq<Entry>, id: Seq<char>) -> bool {
    match (entry_named(previous, id), entry_named(parsed, id)) {
        (Some(was), Some(now)) => !same_definition(was, now),
        (Some(_), None) => true,
        _ => false,
    }
}

/// The loaded entries, in order, that a reload supersedes.
pub open spec fn superseded_of(previous: Seq<Entry>, parsed: Seq<Entry>, loaded: Seq<Seq<char>>) -> Seq<Seq<char>>
    decreases loaded.len(),
{
    if loaded.len() == 0 {
        Seq::empty()
    } else {
        let rest = superseded_of(previous, parsed, loaded.drop_last());
        if is_superseded(previous, parsed, loaded.last()) { rest.push(loaded.last()) } else { rest }
    }
}

/// The identifiers of a catalog's entries, in order.
pub fn ids_of(catalog: &Catalog) -> (out: Vec<String>)
    ensures
        views(out@) == ids(catalog.entries@),
{
    let mut out: Vec<String> = Vec::new();
    let mut i: usize = 0;
    while i < catalog.entries.len()
        invariant
            i <= catalog.entries@.len(),
            views(out@) == ids(catalog.entries@.take(i as int)),
        decreases catalog.entries@.len() - i,
    {
        let ghost before = out@;
        out.push(catalog.entries[i].id.clone());
        assert(views(out@) =~= views(before).push(catalog.entries@[i as int].id@));
        assert(ids(catalog.entries@.take(i + 1)) =~= ids(catalog.entries@.take(i as int)).push(
            catalog.entries@[i as int].id@,
        ));
        i = i + 1;
    }
    assert(catalog.entries@.take(i as int) =~= catalog.entries@);
    out
}

/// The identifiers of a list of entries, in order.
pub fn ids_of_entries(entries: &Vec<Entry>) -> (out: Vec<String>)
    ensures
        views(out@) == ids(entries@),
{
    let mut out: Vec<String> = Vec::new();
    let mut i: usize = 0;
    while i < entries.len()
        invariant
            i <= entries@.len(),
            views(out@) == ids(entries@.take(i as int)),
        decreases entries@.len() - i,
    {
        let ghost before = out@;
        out.push(entries[i].id.clone());
        assert(views(out@) =~= views(before).push(entries@[i as int].id@));
        assert(ids(entries@.take(i + 1)) =~= ids(entries@.take(i as int)).push(entries@[i as int].id@));
        i = i + 1;
    }
    assert(entries@.take(i as int) =~= entries@);
    out
}

/// The names of `a`, in order, that `b` does not hold.
fn missing(a: &Vec<String>, b: &Vec<String>) -> (out: Vec<String>)
    ensures
        views(out@) == missing_from(views(a@), views(b@)),
{
    let mut out: Vec<String> = Vec::new();
    let mut i: usize = 0;
    while i < a.len()
        invariant
            i <= a@.len(),
            views(out@) == missing_from(views(a@).take(i as int), views(b@)),
        decreases a@.len() - i,
    {
        let ghost before = out@;
        assert(views(a@).take(i + 1).drop_last() =~= views(a@).take(i as int));
        if !contains_text(b, a[i].as_str()) {
            out.push(a[i].clone());
            assert(views(out@) =~= views(before).push(a@[i as int]@));
        }
        i = i + 1;
    }
    assert(views(a@).take(i as int) =~= views(a@));
    out
}

/// Whether two optional texts hold the same text.
fn same_setting(a: &Option<String>, b: &Option<String>) -> (same: bool)
    ensures
        same == (setting_text(*a) == setting_text(*b)),
{
    match (a, b) {
        (Some(x), Some(y)) => same_text(x.as_str(), y.as_str()),
        (None, None) => true,
        _ => false,
    }
}

/// Whether two optional locations are the same location.
fn same_path(a: &Option<RelativePath>, b: &Option<RelativePath>) -> (same: bool)
    ensures
        same == (path_text(*a) == path_text(*b)),
{
    match (a, b) {
        (Some(x), Some(y)) => same_text(x.as_str(), y.as_str()),
        (None, None) => true,
        _ => false,
    }
}

/// Whether two lists of flags are the same, pair by pair.
fn same_flags(a: &Vec<(String, String)>, b: &Vec<(String, String)>) -> (same: bool)
    ensures
        same == (flag_texts(a@) == flag_texts(b@)),
{
    if a.len() != b.len() {
        assert(flag_texts(a@).len() != flag_texts(b@).len());
        return false;
    }
    let mut i: usize = 0;
    while i < a.len()
        invariant
            i <= a@.len() == b@.len(),
            forall|j: int| 0 <= j < i ==> flag_texts(a@)[j] == flag_texts(b@)[j],
        decreases a@.len() - i,
    {
        if !same_text(a[i].0.as_str(), b[i].0.as_str()) || !same_text(a[i].1.as_str(), b[i].1.as_str()) {
            assert(flag_texts(a@)[i as int] != flag_texts(b@)[i as int]);
            return false;
        }
        i = i + 1;
    }
    assert(flag_texts(a@) =~= flag_texts(b@));
    true
}

/// Whether two entries define the same thing, field by field.
pub fn same_entry(a: &Entry, b: &Entry) -> (same: bool)
    ensures
        same == same_definition(*a, *b),
{
    same_text(a.id.as_str(), b.id.as_str()) && same_text(a.path.as_str(), b.path.as_str()) && same_path(
        &a.draft_path,
        &b.draft_path,
    ) && same_path(&a.projector_path, &b.projector_path) && a.context_size == b.context_size
        && a.residency == b.residency && a.memory_estimate_mib == b.memory_estimate_mib && same_setting(
        &a.reasoning_format,
        &b.reasoning_format,
    ) && same_setting(&a.reasoning_effort, &b.reasoning_effort) && a.startup_timeout_seconds
        == b.startup_timeout_seconds && same_setting(&a.runtime, &b.runtime) && same_flags(&a.flags, &b.flags)
}

/// Whether a reload from `previous` to `parsed` supersedes the process
/// running for this entry.
fn supersedes(previous: &Catalog, parsed: &Catalog, id: &str) -> (gone: bool)
    ensures
        gone == is_superseded(previous.entries@, parsed.entries@, id@),
{
    reveal(is_superseded);
    match (previous.entry(id), parsed.entry(id)) {
        (Some(was), Some(now)) => !same_entry(was, now),
        (Some(_), None) => true,
        _ => false,
    }
}

/// What a reload from `previous` to `parsed` changes, given the entries a
/// child holds: the entries gained and lost, and the loaded ones whose
/// process no longer answers for what the catalog says.
pub fn changes(previous: &Catalog, parsed: &Catalog, loaded: &Vec<String>) -> (changed: Reloaded)
    ensures
        views(changed.added@) == missing_from(ids(parsed.entries@), ids(previous.entries@)),
        views(changed.removed@) == missing_from(ids(previous.entries@), ids(parsed.entries@)),
        views(changed.superseded@) == superseded_of(previous.entries@, parsed.entries@, views(loaded@)),
{
    let before = ids_of(previous);
    let after = ids_of(parsed);
    let added = missing(&after, &before);
    let removed = missing(&before, &after);
    let mut superseded: Vec<String> = Vec::new();
    let mut i: usize = 0;
    while i < loaded.len()
        invariant
            i <= loaded@.len(),
            views(superseded@) == superseded_of(previous.entries@, parsed.entries@, views(loaded@).take(i as int)),
        decreases loaded@.len() - i,
    {
        let id = loaded[i].as_str();
        let ghost before_push = superseded@;
        assert(views(loaded@).take(i + 1).drop_last() =~= views(loaded@).take(i as int));
        assert(views(loaded@).take(i + 1).last() == id@);
        if supersedes(previous, parsed, id) {
            superseded.push(loaded[i].clone());
            assert(views(superseded@) =~= views(before_push).push(id@));
        }
        i = i + 1;
    }
    assert(views(loaded@).take(i as int) =~= views(loaded@));
    Reloaded { added, removed, superseded }
}

/// What the catalog carries, for a refusal that can be acted on: its
/// identifiers, separated by commas.
pub fn known(catalog: &Catalog) -> (text: String)
    ensures
        text@ == crate::text::joined(ids(catalog.entries@), ", "@),
{
    let names = ids_of(catalog);
    let mut text = String::new();
    push_joined(&mut text, &names, ", ");
    assert(text@ =~= crate::text::joined(ids(catalog.entries@), ", "@));
    text
}

/// The slots a table keeps across a reload, given its slots as identifiers
/// beside whether each still holds a child: those whose entry the new
/// catalog still carries, and those a child still holds, since a slot
/// removed from the table is a handle nothing would ever take again.
pub open spec fn kept_slots(slots: Seq<(Seq<char>, bool)>, catalog_ids: Seq<Seq<char>>) -> Seq<Seq<char>>
    decreases slots.len(),
{
    if slots.len() == 0 {
        Seq::empty()
    } else {
        let rest = kept_slots(slots.drop_last(), catalog_ids);
        let (id, held) = slots.last();
        if catalog_ids.contains(id) || held { rest.push(id) } else { rest }
    }
}

/// The slots a table keeps across a reload: each whose entry the new catalog
/// carries, or which still holds a child.
pub fn keep_slots(slots: &Vec<(String, bool)>, catalog: &Catalog) -> (kept: Vec<String>)
    ensures
        views(kept@) == kept_slots(slots@.map_values(|s: (String, bool)| (s.0@, s.1)), ids(catalog.entries@)),
{
    let names = ids_of(catalog);
    let ghost pairs = slots@.map_values(|s: (String, bool)| (s.0@, s.1));
    let mut kept: Vec<String> = Vec::new();
    let mut i: usize = 0;
    while i < slots.len()
        invariant
            i <= slots@.len(),
            pairs == slots@.map_values(|s: (String, bool)| (s.0@, s.1)),
            views(names@) == ids(catalog.entries@),
            views(kept@) == kept_slots(pairs.take(i as int), ids(catalog.entries@)),
        decreases slots@.len() - i,
    {
        let ghost before = kept@;
        assert(pairs.take(i + 1).drop_last() =~= pairs.take(i as int));
        assert(pairs.take(i + 1).last() == (slots@[i as int].0@, slots@[i as int].1));
        if contains_text(&names, slots[i].0.as_str()) || slots[i].1 {
            kept.push(slots[i].0.clone());
            assert(views(kept@) =~= views(before).push(slots@[i as int].0@));
        }
        i = i + 1;
    }
    assert(pairs.take(i as int) =~= pairs);
    kept
}

proof fn lemma_missing_from(a: Seq<Seq<char>>, b: Seq<Seq<char>>, x: Seq<char>)
    ensures
        missing_from(a, b).contains(x) <==> (a.contains(x) && !b.contains(x)),
    decreases a.len(),
{
    if a.len() > 0 {
        lemma_missing_from(a.drop_last(), b, x);
        let rest = missing_from(a.drop_last(), b);
        if a.contains(x) && !b.contains(x) {
            let k = choose|k: int| 0 <= k < a.len() && a[k] == x;
            if k < a.len() - 1 {
                assert(a.drop_last()[k] == x);
            }
        }
        if a.drop_last().contains(x) {
            let k = choose|k: int| 0 <= k < a.drop_last().len() && a.drop_last()[k] == x;
            assert(a[k] == x);
        }
        if !b.contains(a.last()) {
            assert(rest.push(a.last())[rest.len() as int] == a.last());
            if rest.push(a.last()).contains(x) {
                let k = choose|k: int| 0 <= k < rest.push(a.last()).len() && rest.push(a.last())[k] == x;
                if k < rest.len() {
                    assert(rest[k] == x);
                }
            }
            if rest.contains(x) {
                let k = choose|k: int| 0 <= k < rest.len() && rest[k] == x;
                assert(rest.push(a.last())[k] == x);
            }
        }
        assert(a[a.len() - 1] == a.last());
    }
}

/// A reload never names an entry as both added and removed: an added entry
/// is one the new catalog carries and the old one did not, and a removed
/// entry the reverse.
pub proof fn law_added_and_removed_are_apart(previous: Seq<Entry>, parsed: Seq<Entry>, id: Seq<char>)
    ensures
        missing_from(ids(parsed), ids(previous)).contains(id) <==> (ids(parsed).contains(id) && !ids(
            previous,
        ).contains(id)),
        missing_from(ids(previous), ids(parsed)).contains(id) <==> (ids(previous).contains(id) && !ids(
            parsed,
        ).contains(id)),
        !(missing_from(ids(parsed), ids(previous)).contains(id) && missing_from(ids(previous), ids(parsed)).contains(
            id,
        )),
{
    lemma_missing_from(ids(parsed), ids(previous), id);
    lemma_missing_from(ids(previous), ids(parsed), id);
}

proof fn lemma_nothing_missing_from_itself(a: Seq<Seq<char>>, b: Seq<Seq<char>>)
    requires
        forall|k: int| 0 <= k < a.len() ==> b.contains(#[trigger] a[k]),
    ensures
        missing_from(a, b) == Seq::<Seq<char>>::empty(),
    decreases a.len(),
{
    if a.len() > 0 {
        assert forall|k: int| 0 <= k < a.drop_last().len() implies b.contains(#[trigger] a.drop_last()[k]) by {
            assert(a.drop_last()[k] == a[k]);
        }
        lemma_nothing_missing_from_itself(a.drop_last(), b);
        assert(b.contains(a[a.len() - 1]));
    }
}

proof fn lemma_unchanged_supersedes_nothing(entries: Seq<Entry>, loaded: Seq<Seq<char>>)
    ensures
        superseded_of(entries, entries, loaded) == Seq::<Seq<char>>::empty(),
    decreases loaded.len(),
{
    if loaded.len() > 0 {
        lemma_unchanged_supersedes_nothing(entries, loaded.drop_last());
        let id = loaded.last();
        reveal(is_superseded);
        match entry_named(entries, id) {
            Some(e) => assert(same_definition(e, e)),
            None => {},
        }
    }
}

/// Reading back the catalog already serving changes nothing: no entry is
/// added or removed, and no running process is superseded.
pub proof fn law_reloading_the_same_catalog_changes_nothing(entries: Seq<Entry>, loaded: Seq<Seq<char>>)
    ensures
        missing_from(ids(entries), ids(entries)) == Seq::<Seq<char>>::empty(),
        superseded_of(entries, entries, loaded) == Seq::<Seq<char>>::empty(),
{
    assert forall|k: int| 0 <= k < ids(entries).len() implies ids(entries).contains(#[trigger] ids(entries)[k]) by {
    }
    lemma_nothing_missing_from_itself(ids(entries), ids(entries));
    lemma_unchanged_supersedes_nothing(entries, loaded);
}

proof fn lemma_superseded_of(previous: Seq<Entry>, parsed: Seq<Entry>, loaded: Seq<Seq<char>>, id: Seq<char>)
    ensures
        superseded_of(previous, parsed, loaded).contains(id) <==> (loaded.contains(id) && is_superseded(
            previous,
            parsed,
            id,
        )),
    decreases loaded.len(),
{
    if loaded.len() > 0 {
        let rest = superseded_of(previous, parsed, loaded.drop_last());
        lemma_superseded_of(previous, parsed, loaded.drop_last(), id);
        if loaded.contains(id) {
            let k = choose|k: int| 0 <= k < loaded.len() && loaded[k] == id;
            if k < loaded.len() - 1 {
                assert(loaded.drop_last()[k] == id);
            }
        }
        if loaded.drop_last().contains(id) {
            let k = choose|k: int| 0 <= k < loaded.drop_last().len() && loaded.drop_last()[k] == id;
            assert(loaded[k] == id);
        }
        if is_superseded(previous, parsed, loaded.last()) {
            assert(rest.push(loaded.last())[rest.len() as int] == loaded.last());
            if rest.push(loaded.last()).contains(id) {
                let k = choose|k: int| 0 <= k < rest.push(loaded.last()).len() && rest.push(loaded.last())[k] == id;
                if k < rest.len() {
                    assert(rest[k] == id);
                }
            }
            if rest.contains(id) {
                let k = choose|k: int| 0 <= k < rest.len() && rest[k] == id;
                assert(rest.push(loaded.last())[k] == id);
            }
        }
        assert(loaded[loaded.len() - 1] == loaded.last());
    }
}

/// A reload supersedes exactly the loaded entries the old catalog carried
/// whose definition changed or which the new catalog dropped; an entry no
/// child holds is never superseded.
pub proof fn law_only_a_running_entry_is_superseded(
    previous: Seq<Entry>,
    parsed: Seq<Entry>,
    loaded: Seq<Seq<char>>,
    id: Seq<char>,
)
    ensures
        superseded_of(previous, parsed, loaded).contains(id) <==> (loaded.contains(id) && match (
            entry_named(previous, id),
            entry_named(parsed, id),
        ) {
            (Some(was), Some(now)) => !same_definition(was, now),
            (Some(_), None) => true,
            _ => false,
        }),
{
    reveal(is_superseded);
    lemma_superseded_of(previous, parsed, loaded, id);
}

/// A loaded entry both catalogs carry is superseded exactly when any field
/// the launcher reads differs between the two: where its weights, draft or
/// projector are, its context, residency, estimate, reasoning settings,
/// startup budget, runtime or flags. A process started from one file does
/// not answer for another.
pub proof fn law_a_changed_field_supersedes_a_running_entry(
    previous: Seq<Entry>,
    parsed: Seq<Entry>,
    loaded: Seq<Seq<char>>,
    id: Seq<char>,
    was: Entry,
    now: Entry,
)
    requires
        loaded.contains(id),
        entry_named(previous, id) == Some(was),
        entry_named(parsed, id) == Some(now),
    ensures
        superseded_of(previous, parsed, loaded).contains(id) <==> (was.path.spec_text() != now.path.spec_text()
            || path_text(was.draft_path) != path_text(now.draft_path) || path_text(was.projector_path) != path_text(
            now.projector_path,
        ) || was.context_size != now.context_size || was.residency != now.residency || was.memory_estimate_mib
            != now.memory_estimate_mib || setting_text(was.reasoning_format) != setting_text(now.reasoning_format)
            || setting_text(was.reasoning_effort) != setting_text(now.reasoning_effort)
            || was.startup_timeout_seconds != now.startup_timeout_seconds || setting_text(was.runtime)
            != setting_text(now.runtime) || flag_texts(was.flags@) != flag_texts(now.flags@)),
{
    lemma_entry_named_is_named(previous, id);
    lemma_entry_named_is_named(parsed, id);
    lemma_superseded_of(previous, parsed, loaded, id);
    assert(is_superseded(previous, parsed, id) <==> !same_definition(was, now)) by {
        reveal(is_superseded);
    }
}

proof fn lemma_a_first_exists(entries: Seq<Entry>, id: Seq<char>, k: int)
    requires
        0 <= k < entries.len(),
        entries[k].id@ == id,
    ensures
        exists|i: int|
            0 <= i < entries.len() && #[trigger] entries[i].id@ == id && forall|j: int| 0 <= j < i ==> entries[j].id@ != id,
    decreases k,
{
    if exists|j: int| 0 <= j < k && entries[j].id@ == id {
        let j = choose|j: int| 0 <= j < k && entries[j].id@ == id;
        lemma_a_first_exists(entries, id, j);
    } else {
        assert(forall|j: int| 0 <= j < k ==> entries[j].id@ != id);
    }
}

proof fn lemma_entry_named_is_named(entries: Seq<Entry>, id: Seq<char>)
    ensures
        entry_named(entries, id) matches Some(e) ==> e.id@ == id,
{
    if exists|i: int| 0 <= i < entries.len() && entries[i].id@ == id {
        let k = choose|i: int| 0 <= i < entries.len() && entries[i].id@ == id;
        lemma_a_first_exists(entries, id, k);
    }
}

proof fn lemma_kept_slots(slots: Seq<(Seq<char>, bool)>, catalog_ids: Seq<Seq<char>>, k: int)
    requires
        0 <= k < slots.len(),
    ensures
        kept_slots(slots, catalog_ids).contains(slots[k].0) <== (catalog_ids.contains(slots[k].0) || slots[k].1),
    decreases slots.len(),
{
    let rest = kept_slots(slots.drop_last(), catalog_ids);
    if k < slots.len() - 1 {
        lemma_kept_slots(slots.drop_last(), catalog_ids, k);
        assert(slots.drop_last()[k] == slots[k]);
        if catalog_ids.contains(slots[k].0) || slots[k].1 {
            let j = choose|j: int| 0 <= j < rest.len() && rest[j] == slots[k].0;
            assert(rest.push(slots.last().0)[j] == slots[k].0);
        }
    } else {
        if catalog_ids.contains(slots[k].0) || slots[k].1 {
            assert(rest.push(slots.last().0)[rest.len() as int] == slots[k].0);
        }
    }
}

proof fn lemma_kept_slots_only(slots: Seq<(Seq<char>, bool)>, catalog_ids: Seq<Seq<char>>, id: Seq<char>)
    ensures
        kept_slots(slots, catalog_ids).contains(id) ==> (catalog_ids.contains(id) || exists|k: int|
            0 <= k < slots.len() && #[trigger] slots[k].0 == id && slots[k].1),
    decreases slots.len(),
{
    if slots.len() > 0 {
        let rest = kept_slots(slots.drop_last(), catalog_ids);
        lemma_kept_slots_only(slots.drop_last(), catalog_ids, id);
        if kept_slots(slots, catalog_ids).contains(id) && !catalog_ids.contains(id) {
            let last = slots.last();
            if rest.contains(id) {
                let k = choose|k: int| 0 <= k < slots.drop_last().len() && #[trigger] slots.drop_last()[k].0 == id
                    && slots.drop_last()[k].1;
                assert(slots[k] == slots.drop_last()[k]);
            } else {
                assert(catalog_ids.contains(last.0) || last.1);
                let j = choose|j: int| 0 <= j < rest.push(last.0).len() && rest.push(last.0)[j] == id;
                if j < rest.len() {
                    assert(rest[j] == id);
                }
                assert(slots[slots.len() - 1].0 == id);
            }
        }
    }
}

/// A reload keeps the slot of every entry the new catalog carries and of
/// every entry whose child still runs, and drops only an empty slot whose
/// entry is gone: a running process is never orphaned by a reload.
pub proof fn law_a_running_child_keeps_its_slot(
    slots: Seq<(Seq<char>, bool)>,
    catalog_ids: Seq<Seq<char>>,
    id: Seq<char>,
)
    ensures
        (exists|k: int| 0 <= k < slots.len() && #[trigger] slots[k].0 == id && (slots[k].1 || catalog_ids.contains(
            id,
        ))) ==> kept_slots(slots, catalog_ids).contains(id),
        kept_slots(slots, catalog_ids).contains(id) ==> (catalog_ids.contains(id) || exists|k: int|
            0 <= k < slots.len() && #[trigger] slots[k].0 == id && slots[k].1),
{
    if exists|k: int| 0 <= k < slots.len() && #[trigger] slots[k].0 == id && (slots[k].1 || catalog_ids.contains(id)) {
        let k = choose|k: int| 0 <= k < slots.len() && #[trigger] slots[k].0 == id && (slots[k].1
            || catalog_ids.contains(id));
        lemma_kept_slots(slots, catalog_ids, k);
    }
    lemma_kept_slots_only(slots, catalog_ids, id);
}

} // verus!
