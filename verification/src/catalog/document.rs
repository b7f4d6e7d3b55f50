//! Catalog text as its tables: the top-level settings, the defaults table
//! and its flags, each model's table and its flags, and any table the
//! catalog does not know.
//!
//! Text that is not the catalog's TOML stops the reading, with the line that
//! is not, because nothing further can be read; so does a table opened
//! twice, or a key set twice in one table, which TOML itself forbids.

use vstd::prelude::*;

use super::read::{line_of, read_line, value_view, Line, LineView, Value, ValueView};
use crate::text::{chars_of, decimal, joined, pieces, push_decimal, push_joined, push_str, same_text, split_chars, string_of, views};

verus! {

/// One model's table, as the text wrote it.
#[derive(Debug, Clone, PartialEq, Eq)]
pub struct Draft {
    /// The entry's identifier: the table's name under `models`.
    pub id: String,
    /// Its settings, in the order written.
    pub settings: Vec<(String, Value)>,
    /// Its flags table, in the order written.
    pub flags: Vec<(String, Value)>,
    /// Whether the model's own table has been opened.
    pub table_opened: bool,
    /// Whether the model's flags table has been opened.
    pub flags_opened: bool,
}

/// Catalog text as its tables.
#[derive(Debug, Clone, PartialEq, Eq)]
pub struct Document {
    /// The settings before any table.
    pub top: Vec<(String, Value)>,
    /// The defaults table.
    pub defaults: Vec<(String, Value)>,
    /// The defaults table's flags.
    pub default_flags: Vec<(String, Value)>,
    /// Each model's table, in the order first named.
    pub models: Vec<Draft>,
    /// Tables the catalog does not know, by their dotted names.
    pub unknown: Vec<String>,
}

/// Which table the lines being read belong to.
enum Place {
    Top,
    Defaults,
    DefaultsFlags,
    Model(usize),
    ModelFlags(usize),
    Elsewhere,
}

/// Catalog text part read: the tables so far, which of the catalog's own
/// tables have been opened, and where the next setting goes.
struct Reader {
    doc: Document,
    defaults_opened: bool,
    default_flags_opened: bool,
    place: Place,
}

/// One model's table as plain values.
pub struct DraftView {
    pub id: Seq<char>,
    pub settings: Seq<(Seq<char>, ValueView)>,
    pub flags: Seq<(Seq<char>, ValueView)>,
    pub table_opened: bool,
    pub flags_opened: bool,
}

/// Catalog text as its tables, as plain values.
pub struct DocView {
    pub top: Seq<(Seq<char>, ValueView)>,
    pub defaults: Seq<(Seq<char>, ValueView)>,
    pub default_flags: Seq<(Seq<char>, ValueView)>,
    pub models: Seq<DraftView>,
    pub unknown: Seq<Seq<char>>,
}

/// Which table the next setting goes to, as plain values.
pub enum Spot {
    Top,
    Defaults,
    DefaultsFlags,
    Model(int),
    ModelFlags(int),
    Elsewhere,
}

/// What has been read of catalog text, line by line.
pub struct Reading {
    pub doc: DocView,
    pub defaults_opened: bool,
    pub default_flags_opened: bool,
    pub spot: Spot,
}

/// A table's settings as plain values.
pub open spec fn settings_view(list: Seq<(String, Value)>) -> Seq<(Seq<char>, ValueView)> {
    list.map_values(|p: (String, Value)| (p.0@, value_view(p.1)))
}

/// A model's table as plain values.
pub open spec fn draft_view(d: Draft) -> DraftView {
    DraftView {
        id: d.id@,
        settings: settings_view(d.settings@),
        flags: settings_view(d.flags@),
        table_opened: d.table_opened,
        flags_opened: d.flags_opened,
    }
}

/// Catalog tables as plain values.
pub open spec fn doc_view(d: Document) -> DocView {
    DocView {
        top: settings_view(d.top@),
        defaults: settings_view(d.defaults@),
        default_flags: settings_view(d.default_flags@),
        models: d.models@.map_values(|m: Draft| draft_view(m)),
        unknown: views(d.unknown@),
    }
}

spec fn spot_of(p: Place) -> Spot {
    match p {
        Place::Top => Spot::Top,
        Place::Defaults => Spot::Defaults,
        Place::DefaultsFlags => Spot::DefaultsFlags,
        Place::Model(i) => Spot::Model(i as int),
        Place::ModelFlags(i) => Spot::ModelFlags(i as int),
        Place::Elsewhere => Spot::Elsewhere,
    }
}

spec fn reader_view(r: Reader) -> Reading {
    Reading {
        doc: doc_view(r.doc),
        defaults_opened: r.defaults_opened,
        default_flags_opened: r.default_flags_opened,
        spot: spot_of(r.place),
    }
}

spec fn reader_ok(r: Reader) -> bool {
    &&& distinct_ids(r.doc.models@)
    &&& match r.place {
        Place::Model(i) => i < r.doc.models@.len(),
        Place::ModelFlags(i) => i < r.doc.models@.len(),
        _ => true,
    }
}

/// Nothing read yet.
pub open spec fn reading_start() -> Reading {
    Reading {
        doc: DocView {
            top: Seq::empty(),
            defaults: Seq::empty(),
            default_flags: Seq::empty(),
            models: Seq::empty(),
            unknown: Seq::empty(),
        },
        defaults_opened: false,
        default_flags_opened: false,
        spot: Spot::Top,
    }
}

/// The problem that stops the reading on line `n`, counted from zero.
pub open spec fn stop_text(n: int, what: Seq<char>) -> Seq<char> {
    "line "@ + decimal((n + 1) as nat) + ": "@ + what
}

/// Whether a table's settings already set a key.
pub open spec fn sets_key(list: Seq<(Seq<char>, ValueView)>, key: Seq<char>) -> bool {
    exists|i: int| 0 <= i < list.len() && (#[trigger] list[i]).0 == key
}

/// A setting added to a table, or the problem when the table sets it already.
pub open spec fn put_in(list: Seq<(Seq<char>, ValueView)>, key: Seq<char>, value: ValueView, n: int) -> Result<
    Seq<(Seq<char>, ValueView)>,
    Seq<char>,
> {
    if sets_key(list, key) {
        Err(stop_text(n, "'"@ + key + "' is set twice"@))
    } else {
        Ok(list.push((key, value)))
    }
}

/// Where the model's table with this identifier is, if it has been named.
pub open spec fn place_of(models: Seq<DraftView>, id: Seq<char>) -> Option<int> {
    if exists|i: int| 0 <= i < models.len() && (#[trigger] models[i]).id == id {
        Some(choose|i: int| 0 <= i < models.len() && (#[trigger] models[i]).id == id)
    } else {
        None
    }
}

/// A model's table named for the first time.
pub open spec fn fresh_draft(id: Seq<char>) -> DraftView {
    DraftView { id, settings: Seq::empty(), flags: Seq::empty(), table_opened: false, flags_opened: false }
}

/// Whether a header names a model's table or its flags table.
pub open spec fn names_model(names: Seq<Seq<char>>) -> bool {
    2 <= names.len() <= 3 && names[0] == "models"@ && (names.len() == 2 || names[2] == "flags"@)
}

/// What a header line does to what has been read.
pub open spec fn table_step(r: Reading, n: int, names: Seq<Seq<char>>) -> Result<Reading, Seq<char>> {
    if names.len() == 1 && names[0] == "defaults"@ {
        if r.defaults_opened {
            Err(stop_text(n, "'[defaults]' is opened twice"@))
        } else {
            Ok(Reading { defaults_opened: true, spot: Spot::Defaults, ..r })
        }
    } else if names.len() == 2 && names[0] == "defaults"@ && names[1] == "flags"@ {
        if r.default_flags_opened {
            Err(stop_text(n, "'[defaults.flags]' is opened twice"@))
        } else {
            Ok(Reading { default_flags_opened: true, spot: Spot::DefaultsFlags, ..r })
        }
    } else if names_model(names) {
        let models = r.doc.models;
        let named = place_of(models, names[1]);
        let with = if named is Some { models } else { models.push(fresh_draft(names[1])) };
        let at = match named {
            Some(i) => i,
            None => models.len() as int,
        };
        let d = with[at];
        if names.len() == 3 {
            if d.flags_opened {
                Err(stop_text(n, "'["@ + joined(names, "."@) + "]' is opened twice"@))
            } else {
                Ok(
                    Reading {
                        doc: DocView { models: with.update(at, DraftView { flags_opened: true, ..d }), ..r.doc },
                        spot: Spot::ModelFlags(at),
                        ..r
                    },
                )
            }
        } else {
            if d.table_opened {
                Err(stop_text(n, "'["@ + joined(names, "."@) + "]' is opened twice"@))
            } else {
                Ok(
                    Reading {
                        doc: DocView { models: with.update(at, DraftView { table_opened: true, ..d }), ..r.doc },
                        spot: Spot::Model(at),
                        ..r
                    },
                )
            }
        }
    } else {
        Ok(
            Reading {
                doc: DocView { unknown: r.doc.unknown.push(joined(names, "."@)), ..r.doc },
                spot: Spot::Elsewhere,
                ..r
            },
        )
    }
}

/// What a setting line does to what has been read.
pub open spec fn pair_step(r: Reading, n: int, key: Seq<char>, value: ValueView) -> Result<Reading, Seq<char>> {
    match r.spot {
        Spot::Top => match put_in(r.doc.top, key, value, n) {
            Ok(l) => Ok(Reading { doc: DocView { top: l, ..r.doc }, ..r }),
            Err(m) => Err(m),
        },
        Spot::Defaults => match put_in(r.doc.defaults, key, value, n) {
            Ok(l) => Ok(Reading { doc: DocView { defaults: l, ..r.doc }, ..r }),
            Err(m) => Err(m),
        },
        Spot::DefaultsFlags => match put_in(r.doc.default_flags, key, value, n) {
            Ok(l) => Ok(Reading { doc: DocView { default_flags: l, ..r.doc }, ..r }),
            Err(m) => Err(m),
        },
        Spot::Model(i) => match put_in(r.doc.models[i].settings, key, value, n) {
            Ok(l) => Ok(
                Reading {
                    doc: DocView {
                        models: r.doc.models.update(i, DraftView { settings: l, ..r.doc.models[i] }),
                        ..r.doc
                    },
                    ..r
                },
            ),
            Err(m) => Err(m),
        },
        Spot::ModelFlags(i) => match put_in(r.doc.models[i].flags, key, value, n) {
            Ok(l) => Ok(
                Reading {
                    doc: DocView {
                        models: r.doc.models.update(i, DraftView { flags: l, ..r.doc.models[i] }),
                        ..r.doc
                    },
                    ..r
                },
            ),
            Err(m) => Err(m),
        },
        Spot::Elsewhere => Ok(r),
    }
}

/// What line `n` does to what has been read.
pub open spec fn line_step(r: Reading, n: int, line: Seq<char>) -> Result<Reading, Seq<char>> {
    match line_of(line) {
        None => Err(stop_text(n, "this is not a table, a setting or a comment"@)),
        Some(LineView::Blank) => Ok(r),
        Some(LineView::Table(names)) => table_step(r, n, names),
        Some(LineView::Pair(key, value)) => pair_step(r, n, key, value),
    }
}

/// What is read of these lines, or the problem with the first line that
/// stops the reading.
pub open spec fn reading(lines: Seq<Seq<char>>) -> Result<Reading, Seq<char>>
    decreases lines.len(),
{
    if lines.len() == 0 {
        Ok(reading_start())
    } else {
        match reading(lines.drop_last()) {
            Ok(r) => line_step(r, lines.len() - 1, lines.last()),
            Err(m) => Err(m),
        }
    }
}

/// Catalog text as its tables, or the problem with the line that stops it.
pub open spec fn document_of(text: Seq<char>) -> Result<DocView, Seq<char>> {
    match reading(lines_of(text)) {
        Ok(r) => Ok(r.doc),
        Err(m) => Err(m),
    }
}

/// Once a line stops the reading, no later line changes the problem.
proof fn lemma_stopped_stays(lines: Seq<Seq<char>>, k: int, m: Seq<char>)
    requires
        0 <= k <= lines.len(),
        reading(lines.take(k)) == Err::<Reading, Seq<char>>(m),
    ensures
        reading(lines) == Err::<Reading, Seq<char>>(m),
    decreases lines.len() - k,
{
    if k < lines.len() {
        assert(lines.take(k + 1).drop_last() =~= lines.take(k));
        lemma_stopped_stays(lines, k + 1, m);
    } else {
        assert(lines.take(k) =~= lines);
    }
}

/// The lines of a text.
pub open spec fn lines_of(text: Seq<char>) -> Seq<Seq<char>> {
    pieces(text, '\n')
}

/// The identifiers of the model tables.
pub open spec fn draft_ids(models: Seq<Draft>) -> Seq<Seq<char>> {
    models.map_values(|d: Draft| d.id@)
}

/// Whether no two model tables share an identifier.
pub open spec fn distinct_ids(models: Seq<Draft>) -> bool {
    forall|i: int, j: int| 0 <= i < j < models.len() ==> models[i].id@ != models[j].id@
}

/// The value a table gives a key: the first setting of it.
pub open spec fn lookup(list: Seq<(Seq<char>, ValueView)>, key: Seq<char>) -> Option<ValueView>
    decreases list.len(),
{
    if list.len() == 0 {
        None
    } else if list[0].0 == key {
        Some(list[0].1)
    } else {
        lookup(list.drop_first(), key)
    }
}

/// A table gives a key a value exactly when it sets the key.
pub proof fn lemma_lookup_none(list: Seq<(Seq<char>, ValueView)>, key: Seq<char>)
    ensures
        lookup(list, key) is None <==> !sets_key(list, key),
    decreases list.len(),
{
    if list.len() > 0 {
        lemma_lookup_none(list.drop_first(), key);
        if list[0].0 != key {
            if sets_key(list, key) {
                let i = choose|i: int| 0 <= i < list.len() && (#[trigger] list[i]).0 == key;
                assert(list.drop_first()[i - 1].0 == key);
            }
            if sets_key(list.drop_first(), key) {
                let i = choose|i: int| 0 <= i < list.drop_first().len() && (#[trigger] list.drop_first()[i]).0 == key;
                assert(list[i + 1].0 == key);
            }
        } else {
            assert(list[0].0 == key);
        }
    }
}

/// Whether a list of settings already sets a key.
pub fn sets(list: &Vec<(String, Value)>, key: &str) -> (found: bool)
    ensures
        found == exists|i: int| 0 <= i < list@.len() && (#[trigger] list@[i]).0@ == key@,
        found == sets_key(settings_view(list@), key@),
{
    let ghost v = settings_view(list@);
    let mut i: usize = 0;
    while i < list.len()
        invariant
            i <= list@.len(),
            v == settings_view(list@),
            forall|k: int| 0 <= k < i ==> (#[trigger] list@[k]).0@ != key@,
        decreases list@.len() - i,
    {
        if same_text(list[i].0.as_str(), key) {
            assert(v[i as int].0 == key@);
            return true;
        }
        i = i + 1;
    }
    assert(!sets_key(v, key@)) by {
        if sets_key(v, key@) {
            let k = choose|k: int| 0 <= k < v.len() && (#[trigger] v[k]).0 == key@;
            assert(list@[k].0@ == key@);
        }
    }
    false
}

/// The value a list of settings gives a key, if any: the first, since a key
/// is set once.
pub fn setting<'a>(list: &'a Vec<(String, Value)>, key: &str) -> (found: Option<&'a Value>)
    ensures
        found is None <==> !exists|i: int| 0 <= i < list@.len() && (#[trigger] list@[i]).0@ == key@,
        found matches Some(v) ==> exists|i: int| 0 <= i < list@.len() && (#[trigger] list@[i]).0@ == key@ && list@[i].1
            == *v,
        match lookup(settings_view(list@), key@) {
            Some(v) => found matches Some(x) && value_view(*x) == v,
            None => found is None,
        },
{
    let ghost v = settings_view(list@);
    assert(v.skip(0) =~= v);
    let mut i: usize = 0;
    while i < list.len()
        invariant
            i <= list@.len(),
            v == settings_view(list@),
            forall|k: int| 0 <= k < i ==> (#[trigger] list@[k]).0@ != key@,
            lookup(v, key@) == lookup(v.skip(i as int), key@),
        decreases list@.len() - i,
    {
        assert(v.skip(i as int)[0] == v[i as int]);
        if same_text(list[i].0.as_str(), key) {
            return Some(&list[i].1);
        }
        assert(v.skip(i as int).drop_first() =~= v.skip(i + 1));
        i = i + 1;
    }
    proof {
        assert(v.skip(i as int).len() == 0);
        lemma_lookup_none(v, key@);
        if exists|k: int| 0 <= k < list@.len() && (#[trigger] list@[k]).0@ == key@ {
            let k = choose|k: int| 0 <= k < list@.len() && (#[trigger] list@[k]).0@ == key@;
            assert(false);
        }
    }
    None
}

/// Where a model's table is among the drafts, if it has been named.
fn draft_named(models: &Vec<Draft>, id: &str) -> (at: Option<usize>)
    ensures
        match at {
            Some(i) => i < models@.len() && models@[i as int].id@ == id@,
            None => forall|k: int| 0 <= k < models@.len() ==> (#[trigger] models@[k]).id@ != id@,
        },
{
    let mut i: usize = 0;
    while i < models.len()
        invariant
            i <= models@.len(),
            forall|k: int| 0 <= k < i ==> (#[trigger] models@[k]).id@ != id@,
        decreases models@.len() - i,
    {
        if same_text(models[i].id.as_str(), id) {
            return Some(i);
        }
        i = i + 1;
    }
    None
}

/// The problem that stops the reading, on line `n` counted from one.
fn stop(n: usize, what: &str) -> (message: String)
    requires
        n < usize::MAX,
    ensures
        message@ == stop_text(n as int, what@),
{
    let mut m = String::new();
    push_str(&mut m, "line ");
    push_decimal(&mut m, (n + 1) as u128);
    push_str(&mut m, ": ");
    push_str(&mut m, what);
    assert(m@ =~= stop_text(n as int, what@));
    m
}

/// Adds a setting to a table, or the problem that stops the reading when
/// the table already sets the key.
fn put(list: &mut Vec<(String, Value)>, key: String, value: Value, n: usize) -> (added: Result<(), String>)
    requires
        n < usize::MAX,
    ensures
        match put_in(settings_view(old(list)@), key@, value_view(value), n as int) {
            Ok(l) => added is Ok && settings_view(final(list)@) == l,
            Err(m) => added matches Err(e) && e@ == m,
        },
{
    let ghost before = settings_view(list@);
    if sets(list, key.as_str()) {
        assert(sets_key(before, key@)) by {
            let i = choose|i: int| 0 <= i < list@.len() && (#[trigger] list@[i]).0@ == key@;
            assert(before[i].0 == key@);
        }
        let mut what = String::new();
        push_str(&mut what, "'");
        push_str(&mut what, key.as_str());
        push_str(&mut what, "' is set twice");
        assert(what@ =~= "'"@ + key@ + "' is set twice"@);
        return Err(stop(n, what.as_str()));
    }
    assert(!sets_key(before, key@)) by {
        if sets_key(before, key@) {
            let i = choose|i: int| 0 <= i < before.len() && (#[trigger] before[i]).0 == key@;
            assert(list@[i].0@ == key@);
        }
    }
    list.push((key, value));
    assert(settings_view(list@) =~= before.push((key@, value_view(value))));
    Ok(())
}

/// Opens a model's table, or its flags table, naming the model if no table
/// has yet.
fn open_model_table(r: &mut Reader, names: Vec<String>, n: usize) -> (opened: Result<(), String>)
    requires
        reader_ok(*old(r)),
        n < usize::MAX,
        names_model(views(names@)),
        !(names@.len() == 1 && names@[0]@ == "defaults"@),
        !(names@.len() == 2 && names@[0]@ == "defaults"@ && names@[1]@ == "flags"@),
    ensures
        match table_step(reader_view(*old(r)), n as int, views(names@)) {
            Ok(s) => opened is Ok && reader_view(*final(r)) == s && reader_ok(*final(r)),
            Err(m) => opened matches Err(e) && e@ == m,
        },
{
    let ghost start = reader_view(*r);
    let ghost words = views(names@);
    assert(names_model(words));
    let id = names[1].as_str();
    let ghost models0 = start.doc.models;
    let ghost named = place_of(models0, id@);
    let at = match draft_named(&r.doc.models, id) {
        Some(at) => {
            proof {
                assert(models0[at as int].id == id@);
                let c = choose|i: int| 0 <= i < models0.len() && (#[trigger] models0[i]).id == id@;
                assert(r.doc.models@[c].id@ == id@);
                assert(c == at);
            }
            at
        },
        None => {
            proof {
                assert forall|i: int| 0 <= i < models0.len() implies (#[trigger] models0[i]).id != id@ by {
                    assert(r.doc.models@[i].id@ != id@);
                }
            }
            let ghost before = r.doc.models@;
            r.doc.models.push(
                Draft { id: names[1].clone(), settings: Vec::new(), flags: Vec::new(), table_opened: false, flags_opened: false },
            );
            assert forall|i: int, j: int| 0 <= i < j < r.doc.models@.len() implies r.doc.models@[i].id@
                != r.doc.models@[j].id@ by {
                if j == before.len() {
                    assert(before[i].id@ != id@);
                } else {
                    assert(r.doc.models@[i] == before[i] && r.doc.models@[j] == before[j]);
                }
            }
            proof {
                assert(settings_view(Seq::<(String, Value)>::empty()) =~= Seq::empty());
                assert(r.doc.models@.map_values(|m: Draft| draft_view(m)) =~= models0.push(fresh_draft(id@)));
            }
            r.doc.models.len() - 1
        },
    };
    let ghost with = r.doc.models@.map_values(|m: Draft| draft_view(m));
    assert(with == if named is Some { models0 } else { models0.push(fresh_draft(words[1])) });
    let flags_table = names.len() == 3;
    let mut draft = r.doc.models.remove(at);
    let ghost rest = r.doc.models@;
    let ghost d = with[at as int];
    assert(draft_view(draft) == d);
    let opened = if flags_table {
        draft.flags_opened
    } else {
        draft.table_opened
    };
    if opened {
        let mut what = String::new();
        push_str(&mut what, "'[");
        push_joined(&mut what, &names, ".");
        push_str(&mut what, "]' is opened twice");
        assert(what@ =~= "'["@ + joined(words, "."@) + "]' is opened twice"@);
        return Err(stop(n, what.as_str()));
    }
    if flags_table {
        draft.flags_opened = true;
    } else {
        draft.table_opened = true;
    }
    let ghost id_seen = draft.id@;
    r.doc.models.insert(at, draft);
    assert(draft_ids(r.doc.models@) =~= draft_ids(rest.insert(at as int, r.doc.models@[at as int])));
    r.place = if flags_table {
        Place::ModelFlags(at)
    } else {
        Place::Model(at)
    };
    proof {
        let after = r.doc.models@.map_values(|m: Draft| draft_view(m));
        if flags_table {
            assert(after =~= with.update(at as int, DraftView { flags_opened: true, ..d }));
        } else {
            assert(after =~= with.update(at as int, DraftView { table_opened: true, ..d }));
        }
    }
    Ok(())
}

/// Opens the table a header names.
fn open_table(r: &mut Reader, names: Vec<String>, n: usize) -> (opened: Result<(), String>)
    requires
        reader_ok(*old(r)),
        n < usize::MAX,
    ensures
        match table_step(reader_view(*old(r)), n as int, views(names@)) {
            Ok(s) => opened is Ok && reader_view(*final(r)) == s && reader_ok(*final(r)),
            Err(m) => opened matches Err(e) && e@ == m,
        },
{
    let ghost start = reader_view(*r);
    let ghost words = views(names@);
    if names.len() == 1 && same_text(names[0].as_str(), "defaults") {
        if r.defaults_opened {
            return Err(stop(n, "'[defaults]' is opened twice"));
        }
        r.defaults_opened = true;
        r.place = Place::Defaults;
        return Ok(());
    }
    if names.len() == 2 && same_text(names[0].as_str(), "defaults") && same_text(names[1].as_str(), "flags") {
        if r.default_flags_opened {
            return Err(stop(n, "'[defaults.flags]' is opened twice"));
        }
        r.default_flags_opened = true;
        r.place = Place::DefaultsFlags;
        return Ok(());
    }
    if names.len() >= 2 && names.len() <= 3 && same_text(names[0].as_str(), "models") && (names.len() == 2
        || same_text(names[2].as_str(), "flags")) {
        return open_model_table(r, names, n);
    }
    let mut name = String::new();
    push_joined(&mut name, &names, ".");
    assert(name@ =~= joined(words, "."@));
    let ghost before = r.doc.unknown@;
    r.doc.unknown.push(name);
    assert(views(r.doc.unknown@) =~= views(before).push(joined(words, "."@)));
    r.place = Place::Elsewhere;
    Ok(())
}

/// Adds a setting to the table being read.
fn set_pair(r: &mut Reader, key: String, value: Value, n: usize) -> (added: Result<(), String>)
    requires
        reader_ok(*old(r)),
        n < usize::MAX,
    ensures
        match pair_step(reader_view(*old(r)), n as int, key@, value_view(value)) {
            Ok(s) => added is Ok && reader_view(*final(r)) == s && reader_ok(*final(r)),
            Err(m) => added matches Err(e) && e@ == m,
        },
{
    let ghost start = reader_view(*r);
    match r.place {
        Place::Top => put(&mut r.doc.top, key, value, n),
        Place::Defaults => put(&mut r.doc.defaults, key, value, n),
        Place::DefaultsFlags => put(&mut r.doc.default_flags, key, value, n),
        Place::Model(i) => {
            let mut draft = r.doc.models.remove(i);
            let ghost rest = r.doc.models@;
            let res = put(&mut draft.settings, key, value, n);
            r.doc.models.insert(i, draft);
            assert(draft_ids(r.doc.models@) =~= draft_ids(rest.insert(i as int, r.doc.models@[i as int])));
            proof {
                if res is Ok {
                    let d = start.doc.models[i as int];
                    assert(r.doc.models@.map_values(|m: Draft| draft_view(m)) =~= start.doc.models.update(
                        i as int,
                        DraftView { settings: draft_view(r.doc.models@[i as int]).settings, ..d },
                    ));
                }
            }
            res
        },
        Place::ModelFlags(i) => {
            let mut draft = r.doc.models.remove(i);
            let ghost rest = r.doc.models@;
            let res = put(&mut draft.flags, key, value, n);
            r.doc.models.insert(i, draft);
            assert(draft_ids(r.doc.models@) =~= draft_ids(rest.insert(i as int, r.doc.models@[i as int])));
            proof {
                if res is Ok {
                    let d = start.doc.models[i as int];
                    assert(r.doc.models@.map_values(|m: Draft| draft_view(m)) =~= start.doc.models.update(
                        i as int,
                        DraftView { flags: draft_view(r.doc.models@[i as int]).flags, ..d },
                    ));
                }
            }
            res
        },
        Place::Elsewhere => Ok(()),
    }
}

/// Reads catalog text as its tables, or says which line stops it: every
/// line has to be one the catalog's TOML allows, and every model's table
/// names an entry no other table names.
pub fn document(text: &str) -> (read: Result<Document, String>)
    ensures
        match document_of(text@) {
            Ok(v) => read matches Ok(d) && doc_view(d) == v,
            Err(m) => read matches Err(e) && e@ == m,
        },
        read matches Ok(d) ==> distinct_ids(d.models@) && forall|n: int|
            0 <= n < lines_of(text@).len() ==> (#[trigger] line_of(lines_of(text@)[n])) is Some,
        (exists|n: int| 0 <= n < lines_of(text@).len() && (#[trigger] line_of(lines_of(text@)[n])) is None) ==> read is Err,
{
    let chars = chars_of(text);
    let lines = split_chars(&chars, '\n');
    let ghost all = lines@.map_values(|l: Vec<char>| l@);
    assert(all == lines_of(text@));
    let mut r = Reader {
        doc: Document {
            top: Vec::new(),
            defaults: Vec::new(),
            default_flags: Vec::new(),
            models: Vec::new(),
            unknown: Vec::new(),
        },
        defaults_opened: false,
        default_flags_opened: false,
        place: Place::Top,
    };
    proof {
        assert(all.take(0) =~= Seq::<Seq<char>>::empty());
        assert(doc_view(r.doc).top =~= Seq::empty());
        assert(doc_view(r.doc).defaults =~= Seq::empty());
        assert(doc_view(r.doc).default_flags =~= Seq::empty());
        assert(doc_view(r.doc).models =~= Seq::empty());
        assert(doc_view(r.doc).unknown =~= Seq::empty());
        assert(reader_view(r) == reading_start());
    }
    let mut n: usize = 0;
    while n < lines.len()
        invariant
            n <= lines@.len(),
            all == lines@.map_values(|l: Vec<char>| l@),
            all == lines_of(text@),
            reader_ok(r),
            reading(all.take(n as int)) == Ok::<Reading, Seq<char>>(reader_view(r)),
            forall|k: int| 0 <= k < n ==> (#[trigger] line_of(all[k])) is Some,
        decreases lines@.len() - n,
    {
        assert(all.take(n + 1).drop_last() =~= all.take(n as int));
        let line = string_of(&lines[n]);
        assert(line@ == all[n as int]);
        let read = match read_line(line.as_str()) {
            Some(l) => l,
            None => {
                let m = stop(n, "this is not a table, a setting or a comment");
                proof {
                    lemma_stopped_stays(all, n + 1, m@);
                }
                return Err(m);
            },
        };
        let added = match read {
            Line::Blank => Ok(()),
            Line::Table(names) => open_table(&mut r, names, n),
            Line::Pair(key, value) => set_pair(&mut r, key, value, n),
        };
        if let Err(m) = added {
            proof {
                lemma_stopped_stays(all, n + 1, m@);
            }
            return Err(m);
        }
        n = n + 1;
    }
    assert(all.take(n as int) =~= all);
    Ok(r.doc)
}

} // verus!
