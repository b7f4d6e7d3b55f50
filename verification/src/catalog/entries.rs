//! From a catalog's tables to its entries: every setting checked, every
//! entry given what the defaults table supplies, and every problem named by
//! the entry and the field it came from, all of them in one pass.

use vstd::prelude::*;

use super::defaults::{Defaults, DEFAULT_STARTUP_TIMEOUT_SECONDS};
use super::document::{draft_view, lookup, sets_key, setting, sets, settings_view, Document, Draft, DraftView};
use super::entry::{is_relative, path_text, setting_text, Entry, EntryView, RelativePath, Residency};
use super::field::{flag_text, location_field, name_field, number_field, problem, residency_field, text_field};
use super::read::Value;
use super::field::{flag_value_text, location_read, name_read, number_read, problem_text, residency_read, text_read};
use super::read::ValueView;
use crate::text::{views, comes_before, lemma_before_irreflexive, lemma_before_total, lemma_before_transitive, push_str, same_text, text_before};

verus! {

/// Whether flags are ordered by name, each name once.
pub open spec fn flags_in_order(flags: Seq<(String, String)>) -> bool {
    forall|i: int, j: int| 0 <= i < j < flags.len() ==> comes_before(flags[i].0@, flags[j].0@)
}

/// Server flags by name.
pub open spec fn flag_map(flags: Seq<(String, String)>) -> Map<Seq<char>, Seq<char>> {
    Map::new(
        |k: Seq<char>| exists|i: int| 0 <= i < flags.len() && (#[trigger] flags[i]).0@ == k,
        |k: Seq<char>| flags[choose|i: int| 0 <= i < flags.len() && (#[trigger] flags[i]).0@ == k].1@,
    )
}

/// Flags a table sets laid over inherited ones, in the order written: each
/// replaces any flag of the same name.
pub open spec fn laid_over(inherited: Map<Seq<char>, Seq<char>>, own: Seq<(Seq<char>, ValueView)>) -> Map<
    Seq<char>,
    Seq<char>,
>
    decreases own.len(),
{
    if own.len() == 0 {
        inherited
    } else {
        laid_over(inherited, own.drop_last()).insert(own.last().0, flag_value_text(own.last().1))
    }
}

/// In flags ordered by name, each flag is the one its name finds.
proof fn lemma_flag_found(flags: Seq<(String, String)>, i: int)
    requires
        flags_in_order(flags),
        0 <= i < flags.len(),
    ensures
        flag_map(flags).contains_key(flags[i].0@),
        flag_map(flags)[flags[i].0@] == flags[i].1@,
{
    let k = flags[i].0@;
    assert(flag_map(flags).dom().contains(k));
    assert forall|j: int| 0 <= j < flags.len() && (#[trigger] flags[j]).0@ == k implies j == i by {
        if j < i {
            assert(comes_before(flags[j].0@, flags[i].0@));
            lemma_before_irreflexive(k);
        } else if j > i {
            assert(comes_before(flags[i].0@, flags[j].0@));
            lemma_before_irreflexive(k);
        }
    }
}

/// Two orderings of flags agree by name when every flag of one is, by
/// name and value, a flag of the other.
proof fn lemma_flag_maps(
    after: Seq<(String, String)>,
    m: Map<Seq<char>, Seq<char>>,
)
    requires
        flags_in_order(after),
        forall|i: int| 0 <= i < after.len() ==> m.contains_key((#[trigger] after[i]).0@) && m[after[i].0@] == after[i].1@,
        forall|k: Seq<char>| m.contains_key(k) ==> exists|i: int| 0 <= i < after.len() && (#[trigger] after[i]).0@ == k,
    ensures
        flag_map(after) == m,
{
    assert forall|k: Seq<char>| flag_map(after).contains_key(k) <==> m.contains_key(k) by {
        if flag_map(after).contains_key(k) {
            let i = choose|i: int| 0 <= i < after.len() && (#[trigger] after[i]).0@ == k;
            assert(m.contains_key(after[i].0@));
        }
    }
    assert forall|k: Seq<char>| #[trigger] flag_map(after).contains_key(k) implies flag_map(after)[k] == m[k] by {
        let i = choose|i: int| 0 <= i < after.len() && (#[trigger] after[i]).0@ == k;
        lemma_flag_found(after, i);
    }
    assert(flag_map(after) =~= m);
}

/// Whether entries are ordered by identifier, each identifier once.
pub open spec fn entries_in_order(entries: Seq<Entry>) -> bool {
    forall|i: int, j: int| 0 <= i < j < entries.len() ==> comes_before(entries[i].id@, entries[j].id@)
}

/// What every entry a catalog carries holds to: a context and a startup
/// budget above zero, locations inside the models root, and flags by name.
pub open spec fn well_formed_entry(e: Entry) -> bool {
    &&& e.context_size > 0
    &&& e.startup_timeout_seconds > 0
    &&& is_relative(e.path.spec_text())
    &&& (e.draft_path matches Some(p) ==> is_relative(p.spec_text()))
    &&& (e.projector_path matches Some(p) ==> is_relative(p.spec_text()))
    &&& flags_in_order(e.flags@)
}

/// What a defaults table read without problems holds to.
pub open spec fn well_formed_defaults(d: Defaults) -> bool {
    &&& (d.context_size matches Some(c) ==> c > 0)
    &&& (d.startup_timeout_seconds matches Some(t) ==> t > 0)
    &&& flags_in_order(d.flags@)
}

/// Puts a flag in its place by name, replacing one of the same name.
fn place_flag(flags: &mut Vec<(String, String)>, name: String, value: String)
    requires
        flags_in_order(old(flags)@),
    ensures
        flags_in_order(final(flags)@),
        flag_map(final(flags)@) == flag_map(old(flags)@).insert(name@, value@),
{
    let ghost m = flag_map(flags@).insert(name@, value@);
    let ghost (name_view, value_view) = (name@, value@);
    let mut p: usize = 0;
    while p < flags.len() && text_before(flags[p].0.as_str(), name.as_str())
        invariant
            p <= flags@.len(),
            flags_in_order(flags@),
            forall|k: int| 0 <= k < p ==> comes_before(#[trigger] flags@[k].0@, name@),
        decreases flags@.len() - p,
    {
        p = p + 1;
    }
    if p < flags.len() && same_text(flags[p].0.as_str(), name.as_str()) {
        let ghost before = flags@;
        flags.set(p, (name, value));
        assert forall|i: int, j: int| 0 <= i < j < flags@.len() implies comes_before(flags@[i].0@, flags@[j].0@) by {
            assert(flags@[i].0@ == before[i].0@);
            assert(flags@[j].0@ == before[j].0@);
        }
        assert forall|i: int| 0 <= i < flags@.len() implies m.contains_key((#[trigger] flags@[i]).0@) && m[flags@[i].0@]
            == flags@[i].1@ by {
            if i != p {
                lemma_flag_found(before, i);
                if i < p {
                    assert(comes_before(before[i].0@, before[p as int].0@));
                } else {
                    assert(comes_before(before[p as int].0@, before[i].0@));
                }
                lemma_before_irreflexive(name_view);
            }
        }
        assert forall|k: Seq<char>| m.contains_key(k) implies exists|i: int| 0 <= i < flags@.len() && (#[trigger] flags@[i]).0@ == k by {
            if k == name_view {
                assert(flags@[p as int].0@ == k);
            } else {
                let i = choose|i: int| 0 <= i < before.len() && (#[trigger] before[i]).0@ == k;
                assert(flags@[i].0@ == k);
            }
        }
        proof {
            lemma_flag_maps(flags@, m);
        }
        return;
    }
    proof {
        if p < flags@.len() {
            lemma_before_total(flags@[p as int].0@, name@);
        }
    }
    let ghost before = flags@;
    let ghost new_name = name@;
    flags.insert(p, (name, value));
    assert forall|i: int, j: int| 0 <= i < j < flags@.len() implies comes_before(flags@[i].0@, flags@[j].0@) by {
        if j < p {
            assert(flags@[i] == before[i] && flags@[j] == before[j]);
        } else if j == p {
            assert(flags@[i] == before[i]);
        } else if i == p {
            assert(flags@[j] == before[j - 1]);
            if j - 1 > p {
                lemma_before_transitive(new_name, before[p as int].0@, before[j - 1].0@);
            }
        } else if i < p {
            assert(flags@[i] == before[i] && flags@[j] == before[j - 1]);
        } else {
            assert(flags@[i] == before[i - 1] && flags@[j] == before[j - 1]);
        }
    }
    assert forall|k: int| 0 <= k < before.len() implies (#[trigger] before[k]).0@ != name_view by {
        if k < p {
            assert(comes_before(before[k].0@, name_view));
        } else {
            assert(flags@[k + 1] == before[k]);
            assert(comes_before(flags@[p as int].0@, flags@[k + 1].0@));
        }
        lemma_before_irreflexive(name_view);
    }
    assert forall|i: int| 0 <= i < flags@.len() implies m.contains_key((#[trigger] flags@[i]).0@) && m[flags@[i].0@]
        == flags@[i].1@ by {
        if i < p {
            assert(flags@[i] == before[i]);
            lemma_flag_found(before, i);
        } else if i > p {
            assert(flags@[i] == before[i - 1]);
            lemma_flag_found(before, i - 1);
        }
    }
    assert forall|k: Seq<char>| m.contains_key(k) implies exists|i: int| 0 <= i < flags@.len() && (#[trigger] flags@[i]).0@ == k by {
        if k == name_view {
            assert(flags@[p as int].0@ == k);
        } else {
            let i = choose|i: int| 0 <= i < before.len() && (#[trigger] before[i]).0@ == k;
            if i < p {
                assert(flags@[i] == before[i]);
            } else {
                assert(flags@[i + 1] == before[i]);
            }
        }
    }
    proof {
        lemma_flag_maps(flags@, m);
    }
}

/// The flags a table sets, as the server is passed them, after `inherited`,
/// by name, a table's own replacing one inherited under the same name.
fn merged_flags(inherited: &Vec<(String, String)>, own: &Vec<(String, Value)>) -> (flags: Vec<(String, String)>)
    requires
        flags_in_order(inherited@),
    ensures
        flags_in_order(flags@),
        flag_map(flags@) == laid_over(flag_map(inherited@), settings_view(own@)),
{
    let mut flags: Vec<(String, String)> = crate::flags::copy_flags(inherited);
    assert(flags_in_order(flags@)) by {
        assert forall|i: int, j: int| 0 <= i < j < flags@.len() implies comes_before(flags@[i].0@, flags@[j].0@) by {
            assert(comes_before(inherited@[i].0@, inherited@[j].0@));
        }
    }
    let ghost base = flag_map(inherited@);
    proof {
        assert forall|i: int| 0 <= i < flags@.len() implies base.contains_key((#[trigger] flags@[i]).0@) && base[flags@[i].0@]
            == flags@[i].1@ by {
            lemma_flag_found(inherited@, i);
        }
        assert forall|k: Seq<char>| base.contains_key(k) implies exists|i: int| 0 <= i < flags@.len() && (#[trigger] flags@[i]).0@ == k by {
            let i = choose|i: int| 0 <= i < inherited@.len() && (#[trigger] inherited@[i]).0@ == k;
            assert(flags@[i].0@ == k);
        }
        lemma_flag_maps(flags@, base);
        assert(settings_view(own@).take(0) =~= Seq::<(Seq<char>, ValueView)>::empty());
    }
    let ghost written = settings_view(own@);
    let mut i: usize = 0;
    while i < own.len()
        invariant
            i <= own@.len(),
            written == settings_view(own@),
            flags_in_order(flags@),
            flag_map(flags@) == laid_over(base, written.take(i as int)),
        decreases own@.len() - i,
    {
        assert(written.take(i + 1).drop_last() =~= written.take(i as int));
        place_flag(&mut flags, own[i].0.clone(), flag_text(&own[i].1));
        i = i + 1;
    }
    assert(written.take(i as int) =~= written);
    flags
}

/// Whether a key is one an entry's table may set.
fn entry_field(key: &str) -> (known: bool)
    ensures
        known == entry_key(key@),
{
    same_text(key, "path") || same_text(key, "draft_path") || same_text(key, "projector_path") || same_text(
        key,
        "context_size",
    ) || same_text(key, "residency") || same_text(key, "memory_estimate_mib") || same_text(key, "reasoning_format")
        || same_text(key, "reasoning_effort") || same_text(key, "startup_timeout_seconds") || same_text(key, "runtime")
}

proof fn lemma_joined_after(a: Seq<Seq<char>>, b: Seq<Seq<char>>, c: Seq<Seq<char>>)
    ensures
        (a + b) + c == a + (b + c),
{
    assert((a + b) + c =~= a + (b + c));
}

/// Adds a problem to those found so far.
pub fn add_problem(problems: &mut Vec<String>, p: String)
    ensures
        views(final(problems)@) == views(old(problems)@).push(p@),
        final(problems)@ == old(problems)@.push(p),
{
    let ghost before = problems@;
    problems.push(p);
    assert(views(problems@) =~= views(before).push(p@));
}

/// The problem for a key a table does not recognise.
fn unrecognised(scope: &str, key: &str) -> (p: String)
    ensures
        p@ == problem_text(scope@, key@, "is not recognised"@),
{
    problem(scope, key, "is not recognised")
}

/// The defaults table as plain values, its flags by name.
pub struct DefaultsView {
    pub context_size: Option<u32>,
    pub residency: Option<Residency>,
    pub memory_estimate_mib: Option<u32>,
    pub reasoning_format: Option<Seq<char>>,
    pub reasoning_effort: Option<Seq<char>>,
    pub startup_timeout_seconds: Option<u32>,
    pub flags: Map<Seq<char>, Seq<char>>,
}

/// The defaults as plain values.
pub open spec fn defaults_view(d: Defaults) -> DefaultsView {
    DefaultsView {
        context_size: d.context_size,
        residency: d.residency,
        memory_estimate_mib: d.memory_estimate_mib,
        reasoning_format: setting_text(d.reasoning_format),
        reasoning_effort: setting_text(d.reasoning_effort),
        startup_timeout_seconds: d.startup_timeout_seconds,
        flags: flag_map(d.flags@),
    }
}

/// A defaults table that sets nothing.
pub open spec fn no_defaults() -> DefaultsView {
    DefaultsView {
        context_size: None,
        residency: None,
        memory_estimate_mib: None,
        reasoning_format: None,
        reasoning_effort: None,
        startup_timeout_seconds: None,
        flags: Map::empty(),
    }
}

/// What one setting of the defaults table does: the value it sets, or the
/// problem with it.
pub open spec fn default_setting(read: (DefaultsView, Seq<Seq<char>>), key: Seq<char>, v: ValueView) -> (
    DefaultsView,
    Seq<Seq<char>>,
) {
    let (d, problems) = read;
    let scope = "defaults"@;
    if key == "context_size"@ {
        match number_read(scope, key, v, 1) {
            Ok(n) => (DefaultsView { context_size: Some(n), ..d }, problems),
            Err(p) => (d, problems.push(p)),
        }
    } else if key == "residency"@ {
        match residency_read(scope, key, v) {
            Ok(r) => (DefaultsView { residency: Some(r), ..d }, problems),
            Err(p) => (d, problems.push(p)),
        }
    } else if key == "memory_estimate_mib"@ {
        match number_read(scope, key, v, 0) {
            Ok(n) => (DefaultsView { memory_estimate_mib: Some(n), ..d }, problems),
            Err(p) => (d, problems.push(p)),
        }
    } else if key == "reasoning_format"@ {
        match text_read(scope, key, v) {
            Ok(t) => (DefaultsView { reasoning_format: Some(t), ..d }, problems),
            Err(p) => (d, problems.push(p)),
        }
    } else if key == "reasoning_effort"@ {
        match text_read(scope, key, v) {
            Ok(t) => (DefaultsView { reasoning_effort: Some(t), ..d }, problems),
            Err(p) => (d, problems.push(p)),
        }
    } else if key == "startup_timeout_seconds"@ {
        match number_read(scope, key, v, 1) {
            Ok(n) => (DefaultsView { startup_timeout_seconds: Some(n), ..d }, problems),
            Err(p) => (d, problems.push(p)),
        }
    } else {
        (d, problems.push(problem_text(scope, key, "is not recognised"@)))
    }
}

/// The defaults table's settings read in the order written.
pub open spec fn default_settings_read(settings: Seq<(Seq<char>, ValueView)>) -> (DefaultsView, Seq<Seq<char>>)
    decreases settings.len(),
{
    if settings.len() == 0 {
        (no_defaults(), Seq::empty())
    } else {
        default_setting(default_settings_read(settings.drop_last()), settings.last().0, settings.last().1)
    }
}

/// The defaults table read: what it sets, its flags, and its problems.
pub open spec fn defaults_read(settings: Seq<(Seq<char>, ValueView)>, flags: Seq<(Seq<char>, ValueView)>) -> (
    DefaultsView,
    Seq<Seq<char>>,
) {
    let r = default_settings_read(settings);
    (DefaultsView { flags: laid_over(Map::empty(), flags), ..r.0 }, r.1)
}

/// Reads the defaults table, adding a problem for each setting that holds
/// what it may not, or that the table does not recognise.
pub fn read_defaults(doc: &Document, problems: &mut Vec<String>) -> (defaults: Defaults)
    ensures
        well_formed_defaults(defaults),
        defaults_view(defaults) == defaults_read(settings_view(doc.defaults@), settings_view(doc.default_flags@)).0,
        views(final(problems)@) == views(old(problems)@) + defaults_read(
            settings_view(doc.defaults@),
            settings_view(doc.default_flags@),
        ).1,
{
    let mut d = Defaults::none();
    let ghost settings = settings_view(doc.defaults@);
    let ghost start = views(problems@);
    proof {
        assert(flag_map(d.flags@) =~= Map::empty());
        assert(settings.take(0) =~= Seq::<(Seq<char>, ValueView)>::empty());
        assert(start + Seq::<Seq<char>>::empty() =~= start);
    }
    let mut i: usize = 0;
    while i < doc.defaults.len()
        invariant
            i <= doc.defaults@.len(),
            settings == settings_view(doc.defaults@),
            d.context_size matches Some(c) ==> c > 0,
            d.startup_timeout_seconds matches Some(t) ==> t > 0,
            d.flags@.len() == 0,
            flag_map(d.flags@) == Map::<Seq<char>, Seq<char>>::empty(),
            defaults_view(d) == default_settings_read(settings.take(i as int)).0,
            views(problems@) == start + default_settings_read(settings.take(i as int)).1,
        decreases doc.defaults@.len() - i,
    {
        assert(settings.take(i + 1).drop_last() =~= settings.take(i as int));
        let ghost before = views(problems@);
        let ghost earlier = default_settings_read(settings.take(i as int)).1;
        let key = doc.defaults[i].0.as_str();
        let v = &doc.defaults[i].1;
        proof {
            assert(forall|q: Seq<char>| #[trigger] (start + earlier.push(q)) =~= (start + earlier).push(q));
        }
        if same_text(key, "context_size") {
            match number_field("defaults", key, v, 1) {
                Ok(n) => d.context_size = Some(n),
                Err(p) => add_problem(problems, p),
            }
        } else if same_text(key, "residency") {
            match residency_field("defaults", key, v) {
                Ok(r) => d.residency = Some(r),
                Err(p) => add_problem(problems, p),
            }
        } else if same_text(key, "memory_estimate_mib") {
            match number_field("defaults", key, v, 0) {
                Ok(n) => d.memory_estimate_mib = Some(n),
                Err(p) => add_problem(problems, p),
            }
        } else if same_text(key, "reasoning_format") {
            match text_field("defaults", key, v) {
                Ok(t) => d.reasoning_format = Some(t),
                Err(p) => add_problem(problems, p),
            }
        } else if same_text(key, "reasoning_effort") {
            match text_field("defaults", key, v) {
                Ok(t) => d.reasoning_effort = Some(t),
                Err(p) => add_problem(problems, p),
            }
        } else if same_text(key, "startup_timeout_seconds") {
            match number_field("defaults", key, v, 1) {
                Ok(n) => d.startup_timeout_seconds = Some(n),
                Err(p) => add_problem(problems, p),
            }
        } else {
            add_problem(problems, unrecognised("defaults", key));
        }
        i = i + 1;
    }
    assert(settings.take(i as int) =~= settings);
    let none: Vec<(String, String)> = Vec::new();
    assert(flag_map(none@) =~= Map::empty());
    d.flags = merged_flags(&none, &doc.default_flags);
    d
}

/// An entry as plain values, its flags by name.
pub open spec fn entry_view(e: Entry) -> EntryView {
    EntryView {
        id: e.id@,
        path: e.path.spec_text(),
        draft_path: path_text(e.draft_path),
        projector_path: path_text(e.projector_path),
        context_size: e.context_size,
        residency: e.residency,
        memory_estimate_mib: e.memory_estimate_mib,
        reasoning_format: setting_text(e.reasoning_format),
        reasoning_effort: setting_text(e.reasoning_effort),
        startup_timeout_seconds: e.startup_timeout_seconds,
        runtime: setting_text(e.runtime),
        flags: flag_map(e.flags@),
    }
}

/// Whether a key is one an entry's table may set.
pub open spec fn entry_key(key: Seq<char>) -> bool {
    key == "path"@ || key == "draft_path"@ || key == "projector_path"@ || key == "context_size"@ || key
        == "residency"@ || key == "memory_estimate_mib"@ || key == "reasoning_format"@ || key == "reasoning_effort"@
        || key == "startup_timeout_seconds"@ || key == "runtime"@
}

/// A problem for each setting of an entry's table it does not recognise,
/// in the order written.
pub open spec fn unrecognised_keys(settings: Seq<(Seq<char>, ValueView)>, scope: Seq<char>) -> Seq<Seq<char>>
    decreases settings.len(),
{
    if settings.len() == 0 {
        Seq::empty()
    } else {
        let rest = unrecognised_keys(settings.drop_last(), scope);
        if entry_key(settings.last().0) {
            rest
        } else {
            rest.push(problem_text(scope, settings.last().0, "is not recognised"@))
        }
    }
}

/// A location an entry sets, and the problem with it, if any: one the
/// entry has to set is a problem when it does not.
pub open spec fn location_step(settings: Seq<(Seq<char>, ValueView)>, scope: Seq<char>, field: Seq<char>, required: bool) -> (
    Option<Seq<char>>,
    Seq<Seq<char>>,
) {
    match lookup(settings, field) {
        Some(v) => match location_read(scope, field, v) {
            Ok(t) => (Some(t), Seq::empty()),
            Err(p) => (None, seq![p]),
        },
        None => (None, if required { seq![problem_text(scope, field, "is required"@)] } else { Seq::empty() }),
    }
}

/// A number an entry sets, or the one inherited, and the problem, if any:
/// one the entry has to have is a problem when neither it nor the defaults
/// table sets it.
pub open spec fn number_step(
    settings: Seq<(Seq<char>, ValueView)>,
    scope: Seq<char>,
    field: Seq<char>,
    least: int,
    inherited: Option<u32>,
    default_set: bool,
    required: bool,
) -> (Option<u32>, Seq<Seq<char>>) {
    match lookup(settings, field) {
        Some(v) => match number_read(scope, field, v, least) {
            Ok(n) => (Some(n), Seq::empty()),
            Err(p) => (None, seq![p]),
        },
        None => match inherited {
            Some(n) => (Some(n), Seq::empty()),
            None => (
                None,
                if required && !default_set {
                    seq![problem_text(scope, field, "is required, and no default supplies it"@)]
                } else {
                    Seq::empty()
                },
            ),
        },
    }
}

/// Text an entry sets, or the text inherited, and the problem, if any.
pub open spec fn text_step(settings: Seq<(Seq<char>, ValueView)>, scope: Seq<char>, field: Seq<char>, inherited: Option<Seq<char>>) -> (
    Option<Seq<char>>,
    Seq<Seq<char>>,
) {
    match lookup(settings, field) {
        Some(v) => match text_read(scope, field, v) {
            Ok(t) => (Some(t), Seq::empty()),
            Err(p) => (None, seq![p]),
        },
        None => (inherited, Seq::empty()),
    }
}

/// An entry's residency, and the problem, if any: what it sets, else what
/// the defaults set, else on demand.
pub open spec fn residency_step(settings: Seq<(Seq<char>, ValueView)>, scope: Seq<char>, inherited: Option<Residency>) -> (
    Option<Residency>,
    Seq<Seq<char>>,
) {
    match lookup(settings, "residency"@) {
        Some(v) => match residency_read(scope, "residency"@, v) {
            Ok(r) => (Some(r), Seq::empty()),
            Err(p) => (None, seq![p]),
        },
        None => (
            Some(
                match inherited {
                    Some(r) => r,
                    None => Residency::OnDemand,
                },
            ),
            Seq::empty(),
        ),
    }
}

/// The build an entry names, and the problem, if any.
pub open spec fn runtime_step(settings: Seq<(Seq<char>, ValueView)>, scope: Seq<char>) -> (Option<Seq<char>>, Seq<Seq<char>>) {
    match lookup(settings, "runtime"@) {
        Some(v) => match name_read(scope, "runtime"@, v) {
            Ok(t) => (Some(t), Seq::empty()),
            Err(p) => (None, seq![p]),
        },
        None => (None, Seq::empty()),
    }
}

/// Where an entry's problems say they come from.
pub open spec fn entry_scope(id: Seq<char>) -> Seq<char> {
    "entry '"@ + id + "'"@
}

/// Whether nothing declares an entry's estimate: neither its own table nor
/// the defaults table sets one, and text alone cannot derive it.
pub open spec fn undeclared(draft: DraftView, default_settings: Seq<(Seq<char>, ValueView)>) -> bool {
    !sets_key(draft.settings, "memory_estimate_mib"@) && !sets_key(default_settings, "memory_estimate_mib"@)
}

/// One entry's table read against the defaults: the entry when it has no
/// problem and declares its estimate, and its problems in the order found.
#[verifier::opaque]
pub open spec fn entry_read(draft: DraftView, d: DefaultsView, default_settings: Seq<(Seq<char>, ValueView)>) -> (
    Option<EntryView>,
    Seq<Seq<char>>,
) {
    let scope = entry_scope(draft.id);
    let s = draft.settings;
    let path = location_step(s, scope, "path"@, true);
    let draft_path = location_step(s, scope, "draft_path"@, false);
    let projector_path = location_step(s, scope, "projector_path"@, false);
    let context = number_step(s, scope, "context_size"@, 1, d.context_size, sets_key(default_settings, "context_size"@), true);
    let residency = residency_step(s, scope, d.residency);
    let estimate = number_step(
        s,
        scope,
        "memory_estimate_mib"@,
        0,
        d.memory_estimate_mib,
        sets_key(default_settings, "memory_estimate_mib"@),
        false,
    );
    let format = text_step(s, scope, "reasoning_format"@, d.reasoning_format);
    let effort = text_step(s, scope, "reasoning_effort"@, d.reasoning_effort);
    let timeout = number_step(
        s,
        scope,
        "startup_timeout_seconds"@,
        1,
        Some(
            match d.startup_timeout_seconds {
                Some(t) => t,
                None => DEFAULT_STARTUP_TIMEOUT_SECONDS,
            },
        ),
        false,
        false,
    );
    let runtime = runtime_step(s, scope);
    let problems = unrecognised_keys(s, scope) + path.1 + draft_path.1 + projector_path.1 + context.1 + residency.1
        + estimate.1 + format.1 + effort.1 + timeout.1 + runtime.1;
    if problems.len() == 0 && path.0 is Some && context.0 is Some && residency.0 is Some && estimate.0 is Some
        && timeout.0 is Some {
        (
            Some(
                EntryView {
                    id: draft.id,
                    path: path.0->Some_0,
                    draft_path: draft_path.0,
                    projector_path: projector_path.0,
                    context_size: context.0->Some_0,
                    residency: residency.0->Some_0,
                    memory_estimate_mib: estimate.0->Some_0,
                    reasoning_format: format.0,
                    reasoning_effort: effort.0,
                    startup_timeout_seconds: timeout.0->Some_0,
                    runtime: runtime.0,
                    flags: laid_over(d.flags, draft.flags),
                },
            ),
            problems,
        )
    } else {
        (None, problems)
    }
}

/// A location an entry's table may set, when it sets one that is usable.
fn read_location(draft: &Draft, scope: &str, field: &str, required: bool, problems: &mut Vec<String>) -> (read:
    Option<RelativePath>)
    ensures
        read matches Some(p) ==> is_relative(p.spec_text()),
        path_text(read) == location_step(settings_view(draft.settings@), scope@, field@, required).0,
        views(final(problems)@) == views(old(problems)@) + location_step(
            settings_view(draft.settings@),
            scope@,
            field@,
            required,
        ).1,
{
    let ghost before = views(problems@);
    match setting(&draft.settings, field) {
        Some(v) => match location_field(scope, field, v) {
            Ok(p) => {
                assert(before + Seq::<Seq<char>>::empty() =~= before);
                Some(p)
            },
            Err(p) => {
                add_problem(problems, p);
                assert(before.push(p@) =~= before + seq![p@]);
                None
            },
        },
        None => {
            if required {
                let p = problem(scope, field, "is required");
                add_problem(problems, p);
                assert(before.push(p@) =~= before + seq![p@]);
            } else {
                assert(before + Seq::<Seq<char>>::empty() =~= before);
            }
            None
        },
    }
}

/// A number an entry's table sets, or the one the defaults supply; a
/// problem when neither does and the defaults table does not set it either.
fn read_number(
    draft: &Draft,
    scope: &str,
    field: &str,
    least: u32,
    inherited: Option<u32>,
    default_set: bool,
    required: bool,
    problems: &mut Vec<String>,
) -> (read: Option<u32>)
    requires
        least <= 1,
        inherited matches Some(n) ==> n >= least,
    ensures
        read matches Some(n) ==> n >= least,
        read == number_step(settings_view(draft.settings@), scope@, field@, least as int, inherited, default_set, required).0,
        views(final(problems)@) == views(old(problems)@) + number_step(
            settings_view(draft.settings@),
            scope@,
            field@,
            least as int,
            inherited,
            default_set,
            required,
        ).1,
{
    let ghost before = views(problems@);
    match setting(&draft.settings, field) {
        Some(v) => match number_field(scope, field, v, least) {
            Ok(n) => {
                assert(before + Seq::<Seq<char>>::empty() =~= before);
                Some(n)
            },
            Err(p) => {
                add_problem(problems, p);
                assert(before.push(p@) =~= before + seq![p@]);
                None
            },
        },
        None => match inherited {
            Some(n) => {
                assert(before + Seq::<Seq<char>>::empty() =~= before);
                Some(n)
            },
            None => {
                if required && !default_set {
                    let p = problem(scope, field, "is required, and no default supplies it");
                    add_problem(problems, p);
                    assert(before.push(p@) =~= before + seq![p@]);
                } else {
                    assert(before + Seq::<Seq<char>>::empty() =~= before);
                }
                None
            },
        },
    }
}

/// Text an entry's table sets, or the defaults' text; whether it was usable.
fn read_text(draft: &Draft, scope: &str, field: &str, inherited: &Option<String>, problems: &mut Vec<String>) -> (read: (
    Option<String>,
    bool,
))
    ensures
        setting_text(read.0) == text_step(settings_view(draft.settings@), scope@, field@, setting_text(*inherited)).0,
        views(final(problems)@) == views(old(problems)@) + text_step(
            settings_view(draft.settings@),
            scope@,
            field@,
            setting_text(*inherited),
        ).1,
        read.1 <==> text_step(settings_view(draft.settings@), scope@, field@, setting_text(*inherited)).1.len() == 0,
{
    let ghost before = views(problems@);
    match setting(&draft.settings, field) {
        Some(v) => match text_field(scope, field, v) {
            Ok(t) => {
                assert(before + Seq::<Seq<char>>::empty() =~= before);
                (Some(t), true)
            },
            Err(p) => {
                add_problem(problems, p);
                assert(before.push(p@) =~= before + seq![p@]);
                (None, false)
            },
        },
        None => {
            assert(before + Seq::<Seq<char>>::empty() =~= before);
            (crate::flags::copy_setting(inherited), true)
        },
    }
}

/// The residency an entry's table sets, or the defaults', else on demand.
fn read_residency(draft: &Draft, scope: &str, inherited: Option<Residency>, problems: &mut Vec<String>) -> (read: Option<
    Residency,
>)
    ensures
        read == residency_step(settings_view(draft.settings@), scope@, inherited).0,
        views(final(problems)@) == views(old(problems)@) + residency_step(settings_view(draft.settings@), scope@, inherited).1,
{
    let ghost before = views(problems@);
    match setting(&draft.settings, "residency") {
        Some(v) => match residency_field(scope, "residency", v) {
            Ok(r) => {
                assert(before + Seq::<Seq<char>>::empty() =~= before);
                Some(r)
            },
            Err(p) => {
                add_problem(problems, p);
                assert(before.push(p@) =~= before + seq![p@]);
                None
            },
        },
        None => {
            assert(before + Seq::<Seq<char>>::empty() =~= before);
            match inherited {
                Some(r) => Some(r),
                None => Some(Residency::OnDemand),
            }
        },
    }
}

/// The build an entry's table names, if it names one.
fn read_runtime(draft: &Draft, scope: &str, problems: &mut Vec<String>) -> (read: Option<String>)
    ensures
        setting_text(read) == runtime_step(settings_view(draft.settings@), scope@).0,
        views(final(problems)@) == views(old(problems)@) + runtime_step(settings_view(draft.settings@), scope@).1,
{
    let ghost before = views(problems@);
    match setting(&draft.settings, "runtime") {
        Some(v) => match name_field(scope, "runtime", v) {
            Ok(t) => {
                assert(before + Seq::<Seq<char>>::empty() =~= before);
                Some(t)
            },
            Err(p) => {
                add_problem(problems, p);
                assert(before.push(p@) =~= before + seq![p@]);
                None
            },
        },
        None => {
            assert(before + Seq::<Seq<char>>::empty() =~= before);
            None
        },
    }
}

/// Adds a problem for each setting of an entry's table that it does not
/// recognise.
fn read_unrecognised(draft: &Draft, scope: &str, problems: &mut Vec<String>)
    ensures
        views(final(problems)@) == views(old(problems)@) + unrecognised_keys(settings_view(draft.settings@), scope@),
{
    let ghost start = views(problems@);
    let ghost settings = settings_view(draft.settings@);
    assert(settings.take(0) =~= Seq::<(Seq<char>, ValueView)>::empty());
    assert(start + Seq::<Seq<char>>::empty() =~= start);
    let mut i: usize = 0;
    while i < draft.settings.len()
        invariant
            i <= draft.settings@.len(),
            settings == settings_view(draft.settings@),
            views(problems@) == start + unrecognised_keys(settings.take(i as int), scope@),
        decreases draft.settings@.len() - i,
    {
        assert(settings.take(i + 1).drop_last() =~= settings.take(i as int));
        let ghost earlier = unrecognised_keys(settings.take(i as int), scope@);
        if !entry_field(draft.settings[i].0.as_str()) {
            let p = unrecognised(scope, draft.settings[i].0.as_str());
            add_problem(problems, p);
            assert(start + earlier.push(p@) =~= (start + earlier).push(p@));
        }
        i = i + 1;
    }
    assert(settings.take(i as int) =~= settings);
}

/// Reads one entry's table against the defaults, or adds every problem it
/// has: first each setting the table does not recognise, then each field in
/// turn. No entry comes back with a problem found, nor one that nothing
/// declares an estimate for.
pub fn read_entry(
    draft: &Draft,
    defaults: &Defaults,
    default_settings: &Vec<(String, Value)>,
    problems: &mut Vec<String>,
) -> (read: Option<Entry>)
    requires
        well_formed_defaults(*defaults),
    ensures
        read matches Some(e) ==> well_formed_entry(e) && e.id@ == draft.id@,
        final(problems)@.len() >= old(problems)@.len(),
        views(final(problems)@) == views(old(problems)@) + entry_read(
            draft_view(*draft),
            defaults_view(*defaults),
            settings_view(default_settings@),
        ).1,
        match entry_read(draft_view(*draft), defaults_view(*defaults), settings_view(default_settings@)).0 {
            Some(v) => read matches Some(e) && entry_view(e) == v,
            None => read is None,
        },
{
    reveal(entry_read);
    let found = problems.len();
    let ghost start = views(problems@);
    let ghost read = entry_read(draft_view(*draft), defaults_view(*defaults), settings_view(default_settings@));
    let ghost s = settings_view(draft.settings@);
    let ghost d = defaults_view(*defaults);
    let ghost ds = settings_view(default_settings@);
    let mut scope = String::new();
    push_str(&mut scope, "entry '");
    push_str(&mut scope, draft.id.as_str());
    push_str(&mut scope, "'");
    assert(scope@ =~= entry_scope(draft.id@));
    let ghost sc = entry_scope(draft.id@);
    let scope = scope.as_str();
    read_unrecognised(draft, scope, problems);
    let ghost q = unrecognised_keys(s, sc);
    let path = read_location(draft, scope, "path", true, problems);
    proof {
        lemma_joined_after(start, q, location_step(s, sc, "path"@, true).1);
        q = q + location_step(s, sc, "path"@, true).1;
    }
    let draft_path = read_location(draft, scope, "draft_path", false, problems);
    proof {
        lemma_joined_after(start, q, location_step(s, sc, "draft_path"@, false).1);
        q = q + location_step(s, sc, "draft_path"@, false).1;
    }
    let projector_path = read_location(draft, scope, "projector_path", false, problems);
    proof {
        lemma_joined_after(start, q, location_step(s, sc, "projector_path"@, false).1);
        q = q + location_step(s, sc, "projector_path"@, false).1;
    }
    let context_size = read_number(
        draft,
        scope,
        "context_size",
        1,
        defaults.context_size,
        sets(default_settings, "context_size"),
        true,
        problems,
    );
    let ghost context = number_step(s, sc, "context_size"@, 1, d.context_size, sets_key(ds, "context_size"@), true);
    proof {
        lemma_joined_after(start, q, context.1);
        q = q + context.1;
    }
    let residency = read_residency(draft, scope, defaults.residency, problems);
    proof {
        lemma_joined_after(start, q, residency_step(s, sc, d.residency).1);
        q = q + residency_step(s, sc, d.residency).1;
    }
    let estimate = read_number(
        draft,
        scope,
        "memory_estimate_mib",
        0,
        defaults.memory_estimate_mib,
        sets(default_settings, "memory_estimate_mib"),
        false,
        problems,
    );
    let ghost estimated = number_step(
        s,
        sc,
        "memory_estimate_mib"@,
        0,
        d.memory_estimate_mib,
        sets_key(ds, "memory_estimate_mib"@),
        false,
    );
    proof {
        lemma_joined_after(start, q, estimated.1);
        q = q + estimated.1;
    }
    let (reasoning_format, format_ok) = read_text(draft, scope, "reasoning_format", &defaults.reasoning_format, problems);
    proof {
        lemma_joined_after(start, q, text_step(s, sc, "reasoning_format"@, d.reasoning_format).1);
        q = q + text_step(s, sc, "reasoning_format"@, d.reasoning_format).1;
    }
    let (reasoning_effort, effort_ok) = read_text(draft, scope, "reasoning_effort", &defaults.reasoning_effort, problems);
    proof {
        lemma_joined_after(start, q, text_step(s, sc, "reasoning_effort"@, d.reasoning_effort).1);
        q = q + text_step(s, sc, "reasoning_effort"@, d.reasoning_effort).1;
    }
    let inherited_timeout = match defaults.startup_timeout_seconds {
        Some(t) => Some(t),
        None => Some(DEFAULT_STARTUP_TIMEOUT_SECONDS),
    };
    let timeout = read_number(draft, scope, "startup_timeout_seconds", 1, inherited_timeout, false, false, problems);
    let ghost timed = number_step(s, sc, "startup_timeout_seconds"@, 1, inherited_timeout, false, false);
    proof {
        lemma_joined_after(start, q, timed.1);
        q = q + timed.1;
    }
    let runtime = read_runtime(draft, scope, problems);
    proof {
        lemma_joined_after(start, q, runtime_step(s, sc).1);
        q = q + runtime_step(s, sc).1;
        assert(q == read.1);
    }
    assert(problems@.len() == views(problems@).len());
    if problems.len() > found || !format_ok || !effort_ok {
        return None;
    }
    assert(read.1 =~= Seq::<Seq<char>>::empty());
    let flags = merged_flags(&defaults.flags, &draft.flags);
    match (path, context_size, residency, estimate, timeout) {
        (Some(path), Some(context_size), Some(residency), Some(memory_estimate_mib), Some(startup_timeout_seconds)) => {
            let e = Entry {
                id: draft.id.clone(),
                path,
                draft_path,
                projector_path,
                context_size,
                residency,
                memory_estimate_mib,
                reasoning_format,
                reasoning_effort,
                startup_timeout_seconds,
                runtime,
                flags,
            };
            assert(entry_view(e) == read.0->Some_0);
            Some(e)
        },
        _ => None,
    }
}

} // verus!
