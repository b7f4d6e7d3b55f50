//! Every model the router can serve, and where each estimate came from.

use vstd::prelude::*;

use crate::text::{comes_before, lemma_before_irreflexive, lemma_before_total, lemma_before_transitive, push_str, same_text, text_before, views};

use super::document::{lemma_lookup_none, sets, sets_key, distinct_ids, doc_view, document, document_of, draft_view, lines_of, DocView, Document, DraftView};
use super::defaults::Defaults;
use super::entries::{
    add_problem, default_settings_read, defaults_read, entry_scope, undeclared, defaults_view, entries_in_order, entry_read, entry_view, read_defaults, read_entry,
    well_formed_entry, DefaultsView,
};
use super::entry::{Entry, EntryView, Residency};
use super::field::{number_field, number_read, problem, problem_text};
use super::read::{line_of, ValueView};
use super::report::Report;

verus! {

/// Where an entry's memory estimate came from.
#[derive(Debug, Clone, Copy, PartialEq, Eq, Structural)]
pub enum EstimateSource {
    /// Written in the catalog, by the entry or by the defaults table.
    Declared,
    /// Worked out from the entry's files, because nothing declared it.
    Derived,
}

/// Every model the router can serve, and the settings they share.
#[derive(Debug, Clone, PartialEq, Eq)]
pub struct Catalog {
    /// The schema version this file was written against.
    pub version: u32,
    /// The entries, ordered by identifier so two reads agree.
    pub entries: Vec<Entry>,
    /// Where the entries and their estimates came from.
    pub sources: Sources,
}

/// Which entries' estimates were derived from their files, and which
/// entries came from the models root rather than the text: facts about one
/// reading of a catalog, which only that reading sets.
#[derive(Debug, Clone, PartialEq, Eq)]
pub struct Sources {
    derived: Vec<String>,
    discovered: Vec<String>,
}

impl Sources {
    /// The entries whose estimate was derived from their files.
    pub closed spec fn spec_derived(&self) -> Seq<Seq<char>> {
        views(self.derived@)
    }

    /// The entries that came from the models root rather than the text.
    pub closed spec fn spec_discovered(&self) -> Seq<Seq<char>> {
        views(self.discovered@)
    }

    /// A reading of text alone: every estimate declared, and no entry found
    /// under the models root.
    pub fn none() -> (sources: Sources)
        ensures
            sources.spec_derived().len() == 0,
            sources.spec_discovered().len() == 0,
    {
        let s = Sources { derived: Vec::new(), discovered: Vec::new() };
        assert(views(s.derived@) =~= Seq::<Seq<char>>::empty());
        assert(views(s.discovered@) =~= Seq::<Seq<char>>::empty());
        s
    }
}

/// What the resident entries reserve together.
pub open spec fn reserved(entries: Seq<Entry>) -> int
    decreases entries.len(),
{
    if entries.len() == 0 {
        0
    } else {
        reserved(entries.drop_last()) + if entries.last().residency == Residency::Resident {
            entries.last().memory_estimate_mib as int
        } else {
            0
        }
    }
}

/// The place of the first entry with this identifier, if any.
pub open spec fn first_with(entries: Seq<Entry>, id: Seq<char>) -> Option<int> {
    if exists|i: int| 0 <= i < entries.len() && entries[i].id@ == id {
        Some(choose|i: int| 0 <= i < entries.len() && entries[i].id@ == id
            && forall|j: int| 0 <= j < i ==> entries[j].id@ != id)
    } else {
        None
    }
}

/// What one top-level setting does: the version it sets, or its problem.
pub open spec fn top_setting(read: (u32, Seq<Seq<char>>), key: Seq<char>, v: ValueView) -> (u32, Seq<Seq<char>>) {
    if key == "version"@ {
        match number_read("catalog"@, key, v, 0) {
            Ok(n) => (n, read.1),
            Err(p) => (read.0, read.1.push(p)),
        }
    } else {
        (read.0, read.1.push(problem_text("catalog"@, key, "is not recognised"@)))
    }
}

/// The settings before any table, read in order: the version, zero when
/// none is set, and the problems.
pub open spec fn top_read(top: Seq<(Seq<char>, ValueView)>) -> (u32, Seq<Seq<char>>)
    decreases top.len(),
{
    if top.len() == 0 {
        (0, Seq::empty())
    } else {
        top_setting(top_read(top.drop_last()), top.last().0, top.last().1)
    }
}

/// The problem for a table the catalog does not know.
pub open spec fn unknown_table(name: Seq<char>) -> Seq<char> {
    "catalog: table '["@ + name + "]' is not recognised"@
}

/// A problem for each table the catalog does not know, in the order named.
pub open spec fn unknown_problems(unknown: Seq<Seq<char>>) -> Seq<Seq<char>> {
    unknown.map_values(|t: Seq<char>| unknown_table(t))
}

/// The problems of every model's table, in the order the tables were named.
pub open spec fn entries_read(models: Seq<DraftView>, d: DefaultsView, default_settings: Seq<(Seq<char>, ValueView)>) -> Seq<
    Seq<char>,
>
    decreases models.len(),
{
    if models.len() == 0 {
        Seq::empty()
    } else {
        entries_read(models.drop_last(), d, default_settings) + entry_read(models.last(), d, default_settings).1
    }
}

/// The problem for an entry nothing declares an estimate for.
pub open spec fn undeclared_problem(id: Seq<char>) -> Seq<char> {
    problem_text(entry_scope(id), "memory_estimate_mib"@, "is required, and no default supplies it"@)
}

/// A problem for each model nothing declares an estimate for, in the order
/// the tables were named.
pub open spec fn undeclared_problems(models: Seq<DraftView>, default_settings: Seq<(Seq<char>, ValueView)>) -> Seq<
    Seq<char>,
>
    decreases models.len(),
{
    if models.len() == 0 {
        Seq::empty()
    } else {
        let rest = undeclared_problems(models.drop_last(), default_settings);
        if undeclared(models.last(), default_settings) {
            rest.push(undeclared_problem(models.last().id))
        } else {
            rest
        }
    }
}

/// Everything wrong with a catalog's tables, in the order found: the
/// top-level settings, the tables it does not know, the defaults table,
/// each model's table, and last every model whose estimate text alone
/// cannot settle.
#[verifier::opaque]
pub open spec fn catalog_problems(doc: DocView) -> Seq<Seq<char>> {
    let d = defaults_read(doc.defaults, doc.default_flags);
    top_read(doc.top).1 + unknown_problems(doc.unknown) + d.1 + entries_read(
        doc.models,
        d.0,
        doc.defaults,
    ) + undeclared_problems(doc.models, doc.defaults)
}

/// The entry a model's table makes, when it makes one.
pub open spec fn entry_made(doc: DocView, j: int) -> Option<EntryView> {
    entry_read(doc.models[j], defaults_read(doc.defaults, doc.default_flags).0, doc.defaults).0
}

/// Whether these are the entries the model tables make: each one some
/// table's, and every table's that makes one among them.
#[verifier::opaque]
pub open spec fn entries_made(doc: DocView, entries: Seq<Entry>) -> bool {
    &&& forall|i: int|
        0 <= i < entries.len() ==> exists|j: int|
            0 <= j < doc.models.len() && entry_made(doc, j) == Some(entry_view(#[trigger] entries[i]))
    &&& forall|j: int|
        0 <= j < doc.models.len() && (#[trigger] entry_made(doc, j)) is Some ==> exists|i: int|
            0 <= i < entries.len() && entry_made(doc, j) == Some(entry_view(entries[i]))
}

/// Puts an entry in its place by identifier.
fn place_entry(entries: &mut Vec<Entry>, entry: Entry)
    requires
        entries_in_order(old(entries)@),
        forall|k: int| 0 <= k < old(entries)@.len() ==> (#[trigger] old(entries)@[k]).id@ != entry.id@,
    ensures
        entries_in_order(final(entries)@),
        final(entries)@.len() == old(entries)@.len() + 1,
        forall|k: int| 0 <= k < final(entries)@.len() ==> (#[trigger] final(entries)@[k] == entry || old(
            entries,
        )@.contains(final(entries)@[k])),
        final(entries)@.contains(entry),
        forall|k: int| 0 <= k < old(entries)@.len() ==> final(entries)@.contains(#[trigger] old(entries)@[k]),
{
    let mut p: usize = 0;
    while p < entries.len() && text_before(entries[p].id.as_str(), entry.id.as_str())
        invariant
            p <= entries@.len(),
            entries_in_order(entries@),
            forall|k: int| 0 <= k < p ==> comes_before(#[trigger] entries@[k].id@, entry.id@),
        decreases entries@.len() - p,
    {
        p = p + 1;
    }
    proof {
        if p < entries@.len() {
            lemma_before_total(entries@[p as int].id@, entry.id@);
        }
    }
    let ghost before = entries@;
    let ghost new_id = entry.id@;
    let ghost placed = entry;
    entries.insert(p, entry);
    assert forall|i: int, j: int| 0 <= i < j < entries@.len() implies comes_before(entries@[i].id@, entries@[j].id@) by {
        if j < p {
            assert(entries@[i] == before[i] && entries@[j] == before[j]);
        } else if j == p {
            assert(entries@[i] == before[i]);
        } else if i == p {
            assert(entries@[j] == before[j - 1]);
            if j - 1 > p {
                lemma_before_transitive(new_id, before[p as int].id@, before[j - 1].id@);
            }
        } else if i < p {
            assert(entries@[i] == before[i] && entries@[j] == before[j - 1]);
        } else {
            assert(entries@[i] == before[i - 1] && entries@[j] == before[j - 1]);
        }
    }
    assert forall|k: int| 0 <= k < entries@.len() implies (#[trigger] entries@[k] == placed || before.contains(
        entries@[k],
    )) by {
        if k < p {
            assert(entries@[k] == before[k]);
        } else if k > p {
            assert(entries@[k] == before[k - 1]);
        }
    }
    assert(entries@[p as int] == placed);
    assert forall|k: int| 0 <= k < before.len() implies entries@.contains(#[trigger] before[k]) by {
        if k < p {
            assert(entries@[k] == before[k]);
        } else {
            assert(entries@[k + 1] == before[k]);
        }
    }
}

/// Reads the settings before any table: the version, zero when none is set.
fn read_top(doc: &Document, problems: &mut Vec<String>) -> (version: u32)
    ensures
        version == top_read(doc_view(*doc).top).0,
        views(final(problems)@) == views(old(problems)@) + top_read(doc_view(*doc).top).1,
{
    let ghost top = doc_view(*doc).top;
    let ghost start = views(problems@);
    let mut version: u32 = 0;
    let mut i: usize = 0;
    assert(top.take(0) =~= Seq::<(Seq<char>, ValueView)>::empty());
    assert(start + Seq::<Seq<char>>::empty() =~= start);
    while i < doc.top.len()
        invariant
            i <= doc.top@.len(),
            top == doc_view(*doc).top,
            version == top_read(top.take(i as int)).0,
            views(problems@) == start + top_read(top.take(i as int)).1,
        decreases doc.top@.len() - i,
    {
        assert(top.take(i + 1).drop_last() =~= top.take(i as int));
        let ghost earlier = top_read(top.take(i as int)).1;
        assert(forall|q: Seq<char>| #[trigger] (start + earlier.push(q)) =~= (start + earlier).push(q));
        let key = doc.top[i].0.as_str();
        if same_text(key, "version") {
            match number_field("catalog", key, &doc.top[i].1, 0) {
                Ok(n) => version = n,
                Err(p) => add_problem(problems, p),
            }
        } else {
            add_problem(problems, problem("catalog", key, "is not recognised"));
        }
        i = i + 1;
    }
    assert(top.take(i as int) =~= top);
    version
}

/// Adds a problem for each table the catalog does not know.
fn read_unknown(doc: &Document, problems: &mut Vec<String>)
    ensures
        views(final(problems)@) == views(old(problems)@) + unknown_problems(doc_view(*doc).unknown),
{
    let ghost start = views(problems@);
    let ghost unknown = unknown_problems(doc_view(*doc).unknown);
    assert(start + unknown.take(0) =~= start);
    let mut t: usize = 0;
    while t < doc.unknown.len()
        invariant
            t <= doc.unknown@.len(),
            unknown == unknown_problems(doc_view(*doc).unknown),
            views(problems@) == start + unknown.take(t as int),
        decreases doc.unknown@.len() - t,
    {
        let mut p = String::new();
        push_str(&mut p, "catalog: table '[");
        push_str(&mut p, doc.unknown[t].as_str());
        push_str(&mut p, "]' is not recognised");
        assert(p@ =~= unknown[t as int]);
        add_problem(problems, p);
        assert(start + unknown.take(t + 1) =~= (start + unknown.take(t as int)).push(unknown[t as int]));
        t = t + 1;
    }
    assert(unknown.take(t as int) =~= unknown);
}

/// Reads every model's table against the defaults: each entry without a
/// problem, in its place by identifier, and each problem in turn.
fn read_models(doc: &Document, defaults: &Defaults, problems: &mut Vec<String>) -> (entries: Vec<Entry>)
    requires
        distinct_ids(doc.models@),
        super::entries::well_formed_defaults(*defaults),
        defaults_view(*defaults) == defaults_read(doc_view(*doc).defaults, doc_view(*doc).default_flags).0,
    ensures
        views(final(problems)@) == views(old(problems)@) + entries_read(
            doc_view(*doc).models,
            defaults_view(*defaults),
            doc_view(*doc).defaults,
        ),
        entries_in_order(entries@),
        forall|k: int| 0 <= k < entries@.len() ==> well_formed_entry(#[trigger] entries@[k]),
        entries_made(doc_view(*doc), entries@),
{
    let ghost dv = doc_view(*doc);
    let ghost d = defaults_view(*defaults);
    let ghost base = views(problems@);
    let mut entries: Vec<Entry> = Vec::new();
    let mut m: usize = 0;
    assert(dv.models.take(0) =~= Seq::<DraftView>::empty());
    assert(base + Seq::<Seq<char>>::empty() =~= base);
    while m < doc.models.len()
        invariant
            m <= doc.models@.len(),
            dv == doc_view(*doc),
            d == defaults_view(*defaults),
            d == defaults_read(dv.defaults, dv.default_flags).0,
            distinct_ids(doc.models@),
            super::entries::well_formed_defaults(*defaults),
            views(problems@) == base + entries_read(dv.models.take(m as int), d, dv.defaults),
            entries_in_order(entries@),
            forall|k: int| 0 <= k < entries@.len() ==> well_formed_entry(#[trigger] entries@[k]),
            forall|k: int|
                0 <= k < entries@.len() ==> exists|j: int| 0 <= j < m && (#[trigger] entries@[k]).id@ == doc.models@[j].id@,
            forall|k: int|
                0 <= k < entries@.len() ==> exists|j: int|
                    0 <= j < m && entry_made(dv, j) == Some(entry_view(#[trigger] entries@[k])),
            forall|j: int|
                0 <= j < m && (#[trigger] entry_made(dv, j)) is Some ==> exists|k: int|
                    0 <= k < entries@.len() && entry_made(dv, j) == Some(entry_view(entries@[k])),
        decreases doc.models@.len() - m,
    {
        assert(dv.models.take(m + 1).drop_last() =~= dv.models.take(m as int));
        assert(dv.models[m as int] == draft_view(doc.models@[m as int]));
        let ghost earlier = entries_read(dv.models.take(m as int), d, dv.defaults);
        let ghost now = entry_read(dv.models[m as int], d, dv.defaults).1;
        let read = read_entry(&doc.models[m], defaults, &doc.defaults, problems);
        assert(base + (earlier + now) =~= (base + earlier) + now);
        assert(entries_read(dv.models.take(m + 1), d, dv.defaults) == earlier + now);
        if let Some(e) = read {
            let ghost before = entries@;
            let ghost placed = e;
            assert forall|k: int| 0 <= k < before.len() implies (#[trigger] before[k]).id@ != placed.id@ by {
                let j = choose|j: int| 0 <= j < m && before[k].id@ == doc.models@[j].id@;
            }
            place_entry(&mut entries, e);
            assert forall|k: int| 0 <= k < entries@.len() implies well_formed_entry(#[trigger] entries@[k]) && (exists|j: int|
                0 <= j < m + 1 && entries@[k].id@ == doc.models@[j].id@) && (exists|j: int|
                0 <= j < m + 1 && entry_made(dv, j) == Some(entry_view(entries@[k]))) by {
                if entries@[k] != placed {
                    let q = choose|q: int| 0 <= q < before.len() && before[q] == entries@[k];
                    let j = choose|j: int| 0 <= j < m && before[q].id@ == doc.models@[j].id@;
                    let j2 = choose|j: int| 0 <= j < m && entry_made(dv, j) == Some(entry_view(before[q]));
                } else {
                    assert(entries@[k].id@ == doc.models@[m as int].id@);
                    assert(entry_made(dv, m as int) == Some(entry_view(entries@[k])));
                }
            }
            assert forall|j: int| 0 <= j < m + 1 && (#[trigger] entry_made(dv, j)) is Some implies exists|k: int|
                0 <= k < entries@.len() && entry_made(dv, j) == Some(entry_view(entries@[k])) by {
                if j < m {
                    let k = choose|k: int| 0 <= k < before.len() && entry_made(dv, j) == Some(entry_view(before[k]));
                    assert(entries@.contains(before[k]));
                    let q = choose|q: int| 0 <= q < entries@.len() && entries@[q] == before[k];
                } else {
                    let q = choose|q: int| 0 <= q < entries@.len() && entries@[q] == placed;
                }
            }
        } else {
            assert(entry_made(dv, m as int) is None);
        }
        m = m + 1;
    }
    assert(dv.models.take(m as int) =~= dv.models);
    assert(dv.models.len() == doc.models@.len());
    assert(entries_made(doc_view(*doc), entries@)) by {
        reveal(entries_made);
    }
    entries
}

/// Adds a problem for each model nothing declares an estimate for: text
/// alone cannot derive one.
fn read_undeclared(doc: &Document, problems: &mut Vec<String>)
    ensures
        views(final(problems)@) == views(old(problems)@) + undeclared_problems(doc_view(*doc).models, doc_view(*doc).defaults),
{
    let ghost dv = doc_view(*doc);
    let ghost start = views(problems@);
    let default_set = sets(&doc.defaults, "memory_estimate_mib");
    assert(dv.models.take(0) =~= Seq::<DraftView>::empty());
    assert(start + Seq::<Seq<char>>::empty() =~= start);
    let mut m: usize = 0;
    while m < doc.models.len()
        invariant
            m <= doc.models@.len(),
            dv == doc_view(*doc),
            default_set == sets_key(dv.defaults, "memory_estimate_mib"@),
            views(problems@) == start + undeclared_problems(dv.models.take(m as int), dv.defaults),
        decreases doc.models@.len() - m,
    {
        assert(dv.models.take(m + 1).drop_last() =~= dv.models.take(m as int));
        assert(dv.models[m as int] == draft_view(doc.models@[m as int]));
        let ghost earlier = undeclared_problems(dv.models.take(m as int), dv.defaults);
        if !default_set && !sets(&doc.models[m].settings, "memory_estimate_mib") {
            let mut scope = String::new();
            push_str(&mut scope, "entry '");
            push_str(&mut scope, doc.models[m].id.as_str());
            push_str(&mut scope, "'");
            assert(scope@ =~= entry_scope(doc.models@[m as int].id@));
            let p = problem(scope.as_str(), "memory_estimate_mib", "is required, and no default supplies it");
            add_problem(problems, p);
            assert(start + earlier.push(p@) =~= (start + earlier).push(p@));
        }
        m = m + 1;
    }
    assert(dv.models.take(m as int) =~= dv.models);
}

/// A defaults table read without problems gives every number it sets.
proof fn lemma_set_defaults_are_read(settings: Seq<(Seq<char>, ValueView)>)
    ensures
        default_settings_read(settings).1.len() == 0 && sets_key(settings, "context_size"@) ==> default_settings_read(
            settings,
        ).0.context_size is Some,
        default_settings_read(settings).1.len() == 0 && sets_key(settings, "memory_estimate_mib"@) ==> default_settings_read(
            settings,
        ).0.memory_estimate_mib is Some,
    decreases settings.len(),
{
    if settings.len() > 0 {
        reveal_strlit("context_size");
        reveal_strlit("residency");
        reveal_strlit("memory_estimate_mib");
        assert("memory_estimate_mib"@ != "context_size"@ && "memory_estimate_mib"@ != "residency"@) by {
            assert("memory_estimate_mib"@.len() != "context_size"@.len());
            assert("memory_estimate_mib"@.len() != "residency"@.len());
        }
        let rest = settings.drop_last();
        lemma_set_defaults_are_read(rest);
        assert(default_settings_read(settings).1.len() >= default_settings_read(rest).1.len());
        assert forall|k: Seq<char>| sets_key(settings, k) && settings.last().0 != k implies sets_key(rest, k) by {
            let i = choose|i: int| 0 <= i < settings.len() && (#[trigger] settings[i]).0 == k;
            assert(rest[i].0 == k);
        }
    }
}

/// Problems of no model's table when the tables together have none.
proof fn lemma_no_entry_problems(models: Seq<DraftView>, d: DefaultsView, default_settings: Seq<(Seq<char>, ValueView)>)
    requires
        entries_read(models, d, default_settings).len() == 0,
    ensures
        forall|j: int| 0 <= j < models.len() ==> (#[trigger] entry_read(models[j], d, default_settings)).1.len() == 0,
    decreases models.len(),
{
    if models.len() > 0 {
        lemma_no_entry_problems(models.drop_last(), d, default_settings);
        assert forall|j: int| 0 <= j < models.len() implies (#[trigger] entry_read(models[j], d, default_settings)).1.len()
            == 0 by {
            if j < models.len() - 1 {
                assert(models.drop_last()[j] == models[j]);
            }
        }
    }
}

/// No model lacks a declared estimate when none is reported lacking one.
proof fn lemma_none_undeclared(models: Seq<DraftView>, default_settings: Seq<(Seq<char>, ValueView)>)
    requires
        undeclared_problems(models, default_settings).len() == 0,
    ensures
        forall|j: int| 0 <= j < models.len() ==> !undeclared(#[trigger] models[j], default_settings),
    decreases models.len(),
{
    if models.len() > 0 {
        lemma_none_undeclared(models.drop_last(), default_settings);
        assert forall|j: int| 0 <= j < models.len() implies !undeclared(#[trigger] models[j], default_settings) by {
            if j < models.len() - 1 {
                assert(models.drop_last()[j] == models[j]);
            }
        }
    }
}

/// Every model nothing declares an estimate for is named among the problems
/// of its tables.
proof fn lemma_undeclared_named(models: Seq<DraftView>, default_settings: Seq<(Seq<char>, ValueView)>, j: int)
    requires
        0 <= j < models.len(),
        undeclared(models[j], default_settings),
    ensures
        undeclared_problems(models, default_settings).contains(undeclared_problem(models[j].id)),
    decreases models.len(),
{
    let rest = undeclared_problems(models.drop_last(), default_settings);
    if j == models.len() - 1 {
        assert(undeclared_problems(models, default_settings)[rest.len() as int] == undeclared_problem(models[j].id));
    } else {
        assert(models.drop_last()[j] == models[j]);
        lemma_undeclared_named(models.drop_last(), default_settings, j);
        let k = choose|k: int| 0 <= k < rest.len() && rest[k] == undeclared_problem(models[j].id);
        assert(undeclared_problems(models, default_settings)[k] == rest[k]);
    }
}

/// Every problem is reported, not only the first: each model's table that
/// neither it nor the defaults table gives an estimate is named, by its
/// entry and the field, among the catalog's problems.
pub proof fn law_every_undeclared_estimate_is_named(doc: DocView, j: int)
    requires
        0 <= j < doc.models.len(),
        undeclared(doc.models[j], doc.defaults),
    ensures
        catalog_problems(doc).contains(
            problem_text(entry_scope(doc.models[j].id), "memory_estimate_mib"@, "is required, and no default supplies it"@),
        ),
{
    reveal(catalog_problems);
    lemma_undeclared_named(doc.models, doc.defaults, j);
    let u = undeclared_problems(doc.models, doc.defaults);
    let front = catalog_problems(doc).len() - u.len();
    let k = choose|k: int| 0 <= k < u.len() && u[k] == undeclared_problem(doc.models[j].id);
    assert(catalog_problems(doc)[front + k] == u[k]);
}

/// A catalog with nothing wrong with it carries every model it names: each
/// model's table makes an entry.
#[verifier::spinoff_prover]
pub proof fn law_a_usable_catalog_carries_every_model_it_names(doc: DocView)
    requires
        catalog_problems(doc).len() == 0,
    ensures
        forall|j: int| 0 <= j < doc.models.len() ==> (#[trigger] entry_made(doc, j)) is Some,
{
    reveal(entry_read);
    reveal(catalog_problems);
    let d = defaults_read(doc.defaults, doc.default_flags);
    assert(d.1 == default_settings_read(doc.defaults).1);
    lemma_set_defaults_are_read(doc.defaults);
    lemma_no_entry_problems(doc.models, d.0, doc.defaults);
    lemma_none_undeclared(doc.models, doc.defaults);
    assert forall|j: int| 0 <= j < doc.models.len() implies (#[trigger] entry_made(doc, j)) is Some by {
        assert(entry_read(doc.models[j], d.0, doc.defaults).1.len() == 0);
        assert(!undeclared(doc.models[j], doc.defaults));
        lemma_lookup_none(doc.models[j].settings, "memory_estimate_mib"@);
    }
}

/// Whether this is what a catalog's tables read as: when nothing is wrong
/// with them, the version they set and every entry a model's table makes,
/// in order of identifier, each once; otherwise every problem, in the order
/// found.
pub open spec fn read_as(doc: DocView, parsed: Result<Catalog, Report>) -> bool {
    if catalog_problems(doc).len() == 0 {
        parsed matches Ok(c) && c.version == top_read(doc.top).0 && c.sources.spec_derived().len() == 0 && c.sources.spec_discovered().len() == 0
            && entries_in_order(c.entries@) && entries_made(doc, c.entries@)
    } else {
        parsed matches Err(r) && r.spec_problems() == catalog_problems(doc)
    }
}

/// Problems found table by table, in the order the tables are read, are
/// everything wrong with the catalog.
proof fn lemma_problems_found(
    doc: DocView,
    top: Seq<Seq<char>>,
    unknown: Seq<Seq<char>>,
    defaults: Seq<Seq<char>>,
    models: Seq<Seq<char>>,
    undeclared: Seq<Seq<char>>,
)
    requires
        top == top_read(doc.top).1,
        unknown == unknown_problems(doc.unknown),
        defaults == defaults_read(doc.defaults, doc.default_flags).1,
        models == entries_read(doc.models, defaults_read(doc.defaults, doc.default_flags).0, doc.defaults),
        undeclared == undeclared_problems(doc.models, doc.defaults),
    ensures
        top + unknown + defaults + models + undeclared == catalog_problems(doc),
{
    reveal(catalog_problems);
}

/// A catalog from its tables, or every problem they have.
fn from_tables(doc: &Document) -> (parsed: Result<Catalog, Report>)
    requires
        distinct_ids(doc.models@),
    ensures
        read_as(doc_view(*doc), parsed),
        parsed matches Ok(c) ==> forall|i: int| 0 <= i < c.entries@.len() ==> well_formed_entry(#[trigger] c.entries@[i]),
{
    let ghost dv = doc_view(*doc);
    let mut problems: Vec<String> = Vec::new();
    assert(views(problems@) =~= Seq::<Seq<char>>::empty());
    let version = read_top(doc, &mut problems);
    assert(views(problems@) =~= top_read(dv.top).1);
    read_unknown(doc, &mut problems);
    let defaults = read_defaults(doc, &mut problems);
    let entries = read_models(doc, &defaults, &mut problems);
    read_undeclared(doc, &mut problems);
    proof {
        let d = defaults_read(dv.defaults, dv.default_flags);
        lemma_problems_found(
            dv,
            top_read(dv.top).1,
            unknown_problems(dv.unknown),
            d.1,
            entries_read(dv.models, d.0, dv.defaults),
            undeclared_problems(dv.models, dv.defaults),
        );
    }
    assert(problems@.len() == views(problems@).len());
    if problems.len() == 0 {
        Ok(Catalog { version, entries, sources: Sources::none() })
    } else {
        let report = Report::of(problems);
        Err(report)
    }
}

/// Entries in strict order of identifier.
pub open spec fn views_in_order(v: Seq<EntryView>) -> bool {
    forall|i: int, j: int| 0 <= i < j < v.len() ==> comes_before(v[i].id, v[j].id)
}

/// Entries as plain values.
pub open spec fn entry_views(entries: Seq<Entry>) -> Seq<EntryView> {
    entries.map_values(|e: Entry| entry_view(e))
}

/// Two sequences in strict order of identifier that hold the same entries
/// are one sequence.
proof fn lemma_one_order(x: Seq<EntryView>, y: Seq<EntryView>)
    requires
        views_in_order(x),
        views_in_order(y),
        forall|i: int| 0 <= i < x.len() ==> y.contains(#[trigger] x[i]),
        forall|j: int| 0 <= j < y.len() ==> x.contains(#[trigger] y[j]),
    ensures
        x == y,
    decreases x.len(),
{
    if x.len() == 0 {
        if y.len() > 0 {
            assert(x.contains(y[0]));
        }
        assert(x =~= y);
    } else {
        assert(y.contains(x[0]));
        assert(y.len() > 0);
        assert(x.contains(y[0]));
        let j = choose|j: int| 0 <= j < y.len() && y[j] == x[0];
        let k = choose|k: int| 0 <= k < x.len() && x[k] == y[0];
        if j > 0 {
            assert(comes_before(y[0].id, y[j].id));
            if k > 0 {
                assert(comes_before(x[0].id, x[k].id));
                lemma_before_transitive(x[0].id, y[0].id, x[0].id);
            }
            lemma_before_irreflexive(x[0].id);
        }
        assert(x[0] == y[0]);
        let xs = x.drop_first();
        let ys = y.drop_first();
        assert forall|i: int| 0 <= i < xs.len() implies ys.contains(#[trigger] xs[i]) by {
            assert(xs[i] == x[i + 1]);
            assert(y.contains(x[i + 1]));
            let j = choose|j: int| 0 <= j < y.len() && y[j] == x[i + 1];
            if j == 0 {
                assert(comes_before(x[0].id, x[i + 1].id));
                lemma_before_irreflexive(x[0].id);
            }
            assert(ys[j - 1] == y[j]);
        }
        assert forall|j: int| 0 <= j < ys.len() implies xs.contains(#[trigger] ys[j]) by {
            assert(ys[j] == y[j + 1]);
            assert(x.contains(y[j + 1]));
            let i = choose|i: int| 0 <= i < x.len() && x[i] == y[j + 1];
            if i == 0 {
                assert(comes_before(y[0].id, y[j + 1].id));
                lemma_before_irreflexive(y[0].id);
            }
            assert(xs[i - 1] == x[i]);
        }
        assert(views_in_order(xs)) by {
            assert forall|p: int, q: int| 0 <= p < q < xs.len() implies comes_before(xs[p].id, xs[q].id) by {
                assert(xs[p] == x[p + 1] && xs[q] == x[q + 1]);
            }
        }
        assert(views_in_order(ys)) by {
            assert forall|p: int, q: int| 0 <= p < q < ys.len() implies comes_before(ys[p].id, ys[q].id) by {
                assert(ys[p] == y[p + 1] && ys[q] == y[q + 1]);
            }
        }
        lemma_one_order(xs, ys);
        assert(x =~= seq![x[0]] + xs);
        assert(y =~= seq![y[0]] + ys);
    }
}

/// Each entry of a reading is one some model's table makes.
proof fn lemma_made_from(doc: DocView, e: Seq<Entry>)
    requires
        entries_made(doc, e),
    ensures
        forall|i: int|
            0 <= i < e.len() ==> exists|m: int|
                0 <= m < doc.models.len() && entry_made(doc, m) == Some(entry_view(#[trigger] e[i])),
{
    reveal(entries_made);
}

/// Each entry a model's table makes is among a reading's entries.
proof fn lemma_made_into(doc: DocView, f: Seq<Entry>)
    requires
        entries_made(doc, f),
    ensures
        forall|m: int|
            0 <= m < doc.models.len() && (#[trigger] entry_made(doc, m)) is Some ==> exists|j: int|
                0 <= j < f.len() && entry_made(doc, m) == Some(entry_view(f[j])),
{
    reveal(entries_made);
}

/// Entries two readings of the same tables make are among each other's.
proof fn lemma_made_among(doc: DocView, e: Seq<Entry>, f: Seq<Entry>)
    requires
        entries_made(doc, e),
        entries_made(doc, f),
    ensures
        forall|i: int| 0 <= i < e.len() ==> entry_views(f).contains(#[trigger] entry_views(e)[i]),
{
    lemma_made_from(doc, e);
    lemma_made_into(doc, f);
    assert forall|i: int| 0 <= i < e.len() implies entry_views(f).contains(#[trigger] entry_views(e)[i]) by {
        let m = choose|m: int| 0 <= m < doc.models.len() && entry_made(doc, m) == Some(entry_view(e[i]));
        assert(entry_made(doc, m) is Some);
        let j = choose|j: int| 0 <= j < f.len() && entry_made(doc, m) == Some(entry_view(f[j]));
        assert(entry_views(f)[j] == entry_views(e)[i]);
    }
}

/// Entries of a reading are in strict order of identifier.
proof fn lemma_views_in_order(e: Seq<Entry>)
    requires
        entries_in_order(e),
    ensures
        views_in_order(entry_views(e)),
{
    let x = entry_views(e);
    assert forall|i: int, j: int| 0 <= i < j < x.len() implies comes_before(x[i].id, x[j].id) by {
        assert(comes_before(e[i].id@, e[j].id@));
    }
}

/// Two reads of one text agree: the same version, and the same entries in
/// the same order.
pub proof fn law_two_reads_of_one_catalog_agree(doc: DocView, a: Catalog, b: Catalog)
    requires
        read_as(doc, Ok(a)),
        read_as(doc, Ok(b)),
    ensures
        a.version == b.version,
        entry_views(a.entries@) == entry_views(b.entries@),
{
    assert(entries_made(doc, a.entries@) && entries_made(doc, b.entries@));
    assert(entries_in_order(a.entries@) && entries_in_order(b.entries@));
    lemma_made_among(doc, a.entries@, b.entries@);
    lemma_made_among(doc, b.entries@, a.entries@);
    lemma_views_in_order(a.entries@);
    lemma_views_in_order(b.entries@);
    lemma_one_order(entry_views(a.entries@), entry_views(b.entries@));
}

impl Catalog {
    /// Reads a catalog, reporting everything wrong with it.
    ///
    /// Text that is not the catalog's TOML stops the parse and yields that
    /// one problem, because nothing further can be read; every other
    /// problem is collected, so one run surfaces one round of mistakes.
    /// Text alone cannot derive an estimate, so an entry that declares none
    /// is refused. The entries come back ordered by identifier.
    pub fn parse(text: &str) -> (parsed: Result<Catalog, Report>)
        ensures
            match document_of(text@) {
                Err(m) => parsed matches Err(r) && r.spec_problems() == seq![m],
                Ok(doc) => read_as(doc, parsed),
            },
            parsed matches Ok(c) ==> forall|i: int| 0 <= i < c.entries@.len() ==> well_formed_entry(#[trigger] c.entries@[i]),
            (exists|n: int| 0 <= n < lines_of(text@).len() && (#[trigger] line_of(lines_of(text@)[n])) is None)
                ==> parsed is Err,
    {
        let doc = match document(text) {
            Ok(d) => d,
            Err(m) => return Err(Report::single(m)),
        };
        from_tables(&doc)
    }

    /// What the entries held loaded reserve, in mebibytes: the sum of what
    /// the resident entries say they cost.
    pub fn resident_reservation_mib(&self) -> (mib: u64)
        requires
            self.entries@.len() <= u32::MAX,
        ensures
            mib == reserved(self.entries@),
    {
        let mut sum: u64 = 0;
        let mut i: usize = 0;
        while i < self.entries.len()
            invariant
                i <= self.entries@.len(),
                self.entries@.len() <= u32::MAX,
                sum == reserved(self.entries@.take(i as int)),
                sum <= i * 0xFFFF_FFFFu64,
            decreases self.entries@.len() - i,
        {
            assert(self.entries@.take(i + 1).drop_last() =~= self.entries@.take(i as int));
            proof {
                assert((i + 1) * 0xFFFF_FFFFu64 == i * 0xFFFF_FFFFu64 + 0xFFFF_FFFFu64) by (nonlinear_arith);
                assert((i + 1) * 0xFFFF_FFFFu64 <= 0x1_0000_0000u64 * 0xFFFF_FFFFu64) by (nonlinear_arith)
                    requires i + 1 <= 0x1_0000_0000u64;
            }
            if let Residency::Resident = self.entries[i].residency {
                sum = sum + self.entries[i].memory_estimate_mib as u64;
            }
            i = i + 1;
        }
        assert(self.entries@.take(self.entries@.len() as int) =~= self.entries@);
        sum
    }

    /// The entry with this identifier, if the catalog carries one.
    pub fn entry(&self, id: &str) -> (found: Option<&Entry>)
        ensures
            match first_with(self.entries@, id@) {
                Some(i) => found == Some(&self.entries@[i]),
                None => found is None,
            },
    {
        let mut i: usize = 0;
        while i < self.entries.len()
            invariant
                i <= self.entries@.len(),
                forall|j: int| 0 <= j < i ==> self.entries@[j].id@ != id@,
            decreases self.entries@.len() - i,
        {
            if same_text(self.entries[i].id.as_str(), id) {
                proof {
                    let w = first_with(self.entries@, id@);
                    assert(exists|k: int| 0 <= k < self.entries@.len() && self.entries@[k].id@ == id@) by {
                        assert(self.entries@[i as int].id@ == id@);
                    }
                    let c = w->Some_0;
                    assert(forall|j: int| 0 <= j < c ==> self.entries@[j].id@ != id@);
                    assert(c == i) by {
                        if c < i {
                        } else if c > i {
                            assert(self.entries@[i as int].id@ == id@);
                        }
                    }
                }
                return Some(&self.entries[i]);
            }
            i = i + 1;
        }
        None
    }

    /// Where this entry's estimate came from, if the catalog carries it.
    pub fn estimate_source(&self, id: &str) -> (source: Option<EstimateSource>)
        ensures
            first_with(self.entries@, id@) is None ==> source is None,
            first_with(self.entries@, id@) is Some ==> source == Some(
                if self.sources.spec_derived().contains(id@) { EstimateSource::Derived } else { EstimateSource::Declared },
            ),
    {
        if self.entry(id).is_none() {
            return None;
        }
        Some(if contains_text(&self.sources.derived, id) { EstimateSource::Derived } else { EstimateSource::Declared })
    }

    /// Whether this entry was found under the models root rather than
    /// written in the catalog.
    pub fn is_discovered(&self, id: &str) -> (found: bool)
        ensures
            found == self.sources.spec_discovered().contains(id@),
    {
        contains_text(&self.sources.discovered, id)
    }
}

/// Whether one of the strings holds exactly this text.
pub fn contains_text(list: &Vec<String>, text: &str) -> (found: bool)
    ensures
        found == views(list@).contains(text@),
{
    let mut i: usize = 0;
    while i < list.len()
        invariant
            i <= list@.len(),
            forall|j: int| 0 <= j < i ==> list@[j]@ != text@,
        decreases list@.len() - i,
    {
        if same_text(list[i].as_str(), text) {
            assert(views(list@)[i as int] == text@);
            return true;
        }
        i = i + 1;
    }
    proof {
        if views(list@).contains(text@) {
            let k = choose|k: int| 0 <= k < views(list@).len() && views(list@)[k] == text@;
            assert(list@[k]@ == text@);
        }
    }
    false
}

} // verus!
