//! Turning the model files found under the root into entries.
//!
//! The walk itself -- listing directories, reading each file's metadata and
//! sizing it -- is the caller's. What it hands in is each model file's path
//! in a stable order, the context its metadata says it was trained for, and
//! what its files hold; what becomes of each is decided here.

use vstd::prelude::*;

use super::name::{entry_stem, is_model_name, name_identifier, slug, slug_of};
use crate::catalog::defaults::{Defaults, DEFAULT_STARTUP_TIMEOUT_SECONDS};
use crate::catalog::entry::{is_relative, Entry, RelativePath, Residency};
use crate::catalog::estimate::derived::{derive_estimate, derived, Basis, Files};
use crate::catalog::estimate::shard::{file_name, last_index, last_of};
use crate::catalog::listing::contains_text;
use crate::flags::{copy_flags, copy_setting};
use crate::launch::root::path_join;
use crate::text::{chars_of, decimal, joined, pieces, push_char, push_decimal, push_joined, push_str, split_chars, string_of, subrange_chars, views};

verus! {

/// The context a discovered entry gets when neither the defaults table nor
/// the file says: the server's own default.
pub const FALLBACK_CONTEXT: u32 = 4096;

/// The names the proxy answers for itself under `/models/`, which no entry
/// may take.
pub open spec fn reserved() -> Seq<Seq<char>> {
    seq!["load"@, "unload"@]
}

/// What a file's metadata says it was trained for, as a context the server
/// can be started with: none where it says nothing, zero, or more than 32
/// bits hold.
pub open spec fn trained_context(trained_for: Option<u64>) -> Option<u32> {
    match trained_for {
        Some(n) => if 0 < n <= u32::MAX { Some(n as u32) } else { None },
        None => None,
    }
}

/// The context a discovered entry is started with: the defaults table's,
/// else what the file was trained for, else the server's default -- and
/// never more than the file was trained for.
pub open spec fn context_for_spec(configured: Option<u32>, trained_for: Option<u64>) -> u32 {
    let trained = trained_context(trained_for);
    let wanted = match configured {
        Some(c) => c,
        None => match trained {
            Some(t) => t,
            None => FALLBACK_CONTEXT,
        },
    };
    match trained {
        Some(t) => if wanted <= t { wanted } else { t },
        None => wanted,
    }
}

/// The context a discovered entry is started with.
pub fn context_for(configured: Option<u32>, trained_for: Option<u64>) -> (context: u32)
    ensures
        context == context_for_spec(configured, trained_for),
{
    let trained: Option<u32> = match trained_for {
        Some(n) => if 0 < n && n <= u32::MAX as u64 { Some(n as u32) } else { None },
        None => None,
    };
    let wanted = match configured {
        Some(c) => c,
        None => match trained {
            Some(t) => t,
            None => FALLBACK_CONTEXT,
        },
    };
    match trained {
        Some(t) => if wanted <= t { wanted } else { t },
        None => wanted,
    }
}

/// The parts of a path below a root, without empty parts or `.`.
pub open spec fn kept_parts(parts: Seq<Seq<char>>) -> Seq<Seq<char>>
    decreases parts.len(),
{
    if parts.len() == 0 {
        Seq::empty()
    } else {
        let rest = kept_parts(parts.drop_last());
        if parts.last().len() == 0 || parts.last() == seq!['.'] { rest } else { rest.push(parts.last()) }
    }
}

/// A root as a prefix: with the separator it ends in.
pub open spec fn root_prefix(root: Seq<char>) -> Seq<char> {
    if root.len() > 0 && root.last() == '/' { root } else { root.push('/') }
}

/// A file's location as a catalog would write it: relative to the root,
/// with the separator every catalog uses; none for a file not under it.
pub open spec fn relative_text(root: Seq<char>, file: Seq<char>) -> Option<Seq<char>> {
    let prefix = root_prefix(root);
    if prefix.len() <= file.len() && file.take(prefix.len() as int) == prefix {
        Some(joined(kept_parts(pieces(file.skip(prefix.len() as int), '/')), "/"@))
    } else {
        None
    }
}

/// A file's location as a catalog would write it, when it is one a catalog
/// can carry.
pub fn relative(root: &str, file: &str) -> (location: Option<RelativePath>)
    ensures
        match relative_text(root@, file@) {
            Some(t) => if is_relative(t) {
                location matches Some(p) && p.spec_text() == t
            } else {
                location is None
            },
            None => location is None,
        },
{
    let r = chars_of(root);
    let f = chars_of(file);
    let mut prefix = r;
    if !(prefix.len() > 0 && prefix[prefix.len() - 1] == '/') {
        prefix.push('/');
    }
    assert(prefix@ == root_prefix(root@));
    if prefix.len() > f.len() {
        return None;
    }
    let head = subrange_chars(&f, 0, prefix.len());
    if !crate::catalog::entry::same_chars(&head, &prefix) {
        assert(head@ =~= file@.take(prefix@.len() as int));
        return None;
    }
    assert(head@ =~= file@.take(prefix@.len() as int));
    let rest = subrange_chars(&f, prefix.len(), f.len());
    assert(rest@ =~= file@.skip(prefix@.len() as int));
    let parts = split_chars(&rest, '/');
    let ghost all = parts@.map_values(|p: Vec<char>| p@);
    let mut kept: Vec<String> = Vec::new();
    let mut i: usize = 0;
    while i < parts.len()
        invariant
            i <= parts@.len(),
            all == parts@.map_values(|p: Vec<char>| p@),
            views(kept@) == kept_parts(all.take(i as int)),
        decreases parts@.len() - i,
    {
        assert(all.take(i + 1).drop_last() =~= all.take(i as int));
        assert(all.take(i + 1).last() == parts@[i as int]@);
        let part = &parts[i];
        let dot = part.len() == 1 && part[0] == '.';
        assert(dot == (part@ == seq!['.'])) by {
            if part@.len() == 1 && part@[0] == '.' {
                assert(part@ =~= seq!['.']);
            }
        }
        if part.len() > 0 && !dot {
            let ghost was = views(kept@);
            kept.push(string_of(part.as_slice()));
            assert(views(kept@) =~= was.push(part@));
        }
        i = i + 1;
    }
    assert(all.take(i as int) =~= all);
    let mut text = String::new();
    push_joined(&mut text, &kept, "/");
    match RelativePath::new(text.as_str()) {
        Ok(p) => Some(p),
        Err(_) => None,
    }
}

/// Where a location resolves, under a root.
pub fn resolve(root: &str, location: &RelativePath) -> (path: String)
    ensures
        path@ == path_join(root@, location.spec_text()),
{
    let r = chars_of(root);
    let mut path = string_of(&r);
    if r.len() > 0 && r[r.len() - 1] != '/' {
        push_char(&mut path, '/');
    }
    push_str(&mut path, location.as_str());
    path
}

/// The directory a file is in, where its path names one.
pub open spec fn parent_dir(file: Seq<char>) -> Seq<char> {
    if last_of(file, '/') > 0 { file.take(last_of(file, '/')) } else { Seq::empty() }
}

/// What a file that gives no name is noted with.
pub open spec fn nameless_note(file: Seq<char>) -> Seq<char> {
    "skipped '"@ + file + "': its name has no letters or digits to name it by"@
}

/// What a file whose names are all taken is noted with.
pub open spec fn taken_note(file: Seq<char>, id: Seq<char>) -> Seq<char> {
    "skipped '"@ + file + "': '"@ + id + "' is taken, and so is the name its directory would give it"@
}

/// What a file named after its directory is noted with.
pub open spec fn renamed_note(file: Seq<char>, id: Seq<char>, alt: Seq<char>) -> Seq<char> {
    "'"@ + id + "' is taken, so '"@ + file + "' is named '"@ + alt + "'"@
}

/// The name a file's entry takes, given the names already taken, and the
/// note it leaves: the name its file gives it, or, when that is taken, its
/// directory's name in front of it.
pub open spec fn identified(file: Seq<char>, taken: Seq<Seq<char>>) -> (Option<Seq<char>>, Option<Seq<char>>) {
    let id = slug(entry_stem(file_name(file)));
    let parent = slug(file_name(parent_dir(file)));
    let alt = parent + "-"@ + id;
    if id.len() == 0 {
        (None, Some(nameless_note(file)))
    } else if !taken.contains(id) {
        (Some(id), None)
    } else if parent.len() == 0 || taken.contains(alt) {
        (None, Some(taken_note(file, id)))
    } else {
        (Some(alt), Some(renamed_note(file, id, alt)))
    }
}

/// The name a file's entry takes, which is then taken; the note it leaves
/// is added to the notes.
pub fn identifier(file: &str, taken: &mut Vec<String>, notes: &mut Vec<String>) -> (id: Option<String>)
    ensures
        match identified(file@, views(old(taken)@)) {
            (Some(name), note) => id matches Some(n) && n@ == name && views(final(taken)@) == views(
                old(taken)@,
            ).push(name) && match note {
                Some(t) => views(final(notes)@) == views(old(notes)@).push(t),
                None => views(final(notes)@) == views(old(notes)@),
            },
            (None, note) => id is None && views(final(taken)@) == views(old(taken)@) && match note {
                Some(t) => views(final(notes)@) == views(old(notes)@).push(t),
                None => views(final(notes)@) == views(old(notes)@),
            },
        },
{
    let chars = chars_of(file);
    let n = chars.len();
    let slash = last_index(&chars, '/');
    let start: usize = match slash {
        Some(at) => at + 1,
        None => 0,
    };
    let name = string_of(&subrange_chars(&chars, start, n));
    assert(name@ =~= file_name(file@));
    let id = name_identifier(name.as_str());
    let parent_chars: Vec<char> = match slash {
        Some(at) => if at > 0 { subrange_chars(&chars, 0, at) } else { Vec::new() },
        None => Vec::new(),
    };
    assert(parent_chars@ =~= parent_dir(file@));
    let parent_start: usize = match last_index(&parent_chars, '/') {
        Some(at) => at + 1,
        None => 0,
    };
    let parent_name = subrange_chars(&parent_chars, parent_start, parent_chars.len());
    assert(parent_name@ =~= file_name(parent_dir(file@)));
    let parent = slug_of(&parent_name);
    let mut alt = String::new();
    push_str(&mut alt, parent.as_str());
    push_str(&mut alt, "-");
    push_str(&mut alt, id.as_str());
    let ghost old_notes = views(notes@);
    let ghost old_taken = views(taken@);
    if id.as_str().unicode_len() == 0 {
        let mut note = String::new();
        push_str(&mut note, "skipped '");
        push_str(&mut note, file);
        push_str(&mut note, "': its name has no letters or digits to name it by");
        notes.push(note);
        assert(views(notes@) =~= old_notes.push(nameless_note(file@)));
        return None;
    }
    if !contains_text(taken, id.as_str()) {
        taken.push(id.clone());
        assert(views(taken@) =~= old_taken.push(id@));
        return Some(id);
    }
    if parent.as_str().unicode_len() == 0 || contains_text(taken, alt.as_str()) {
        let mut note = String::new();
        push_str(&mut note, "skipped '");
        push_str(&mut note, file);
        push_str(&mut note, "': '");
        push_str(&mut note, id.as_str());
        push_str(&mut note, "' is taken, and so is the name its directory would give it");
        notes.push(note);
        assert(views(notes@) =~= old_notes.push(taken_note(file@, id@)));
        return None;
    }
    let mut note = String::new();
    push_str(&mut note, "'");
    push_str(&mut note, id.as_str());
    push_str(&mut note, "' is taken, so '");
    push_str(&mut note, file);
    push_str(&mut note, "' is named '");
    push_str(&mut note, alt.as_str());
    push_str(&mut note, "'");
    notes.push(note);
    assert(views(notes@) =~= old_notes.push(renamed_note(file@, id@, alt@)));
    taken.push(alt.clone());
    assert(views(taken@) =~= old_taken.push(alt@));
    Some(alt)
}


/// What a discovered entry is noted with: where it was found, what it was
/// estimated at, at what context, and whether from its size alone.
pub open spec fn discovered_note(id: Seq<char>, path: Seq<char>, mib: u32, context: u32, basis: Basis) -> Seq<char> {
    "discovered '"@ + id + "' at "@ + path + ": "@ + decimal(mib as nat) + " MiB estimated at "@ + decimal(
        context as nat,
    ) + " tokens of context"@ + if basis == Basis::Size {
        ", from file size alone"@
    } else {
        Seq::empty()
    }
}

/// What a file that could not be estimated is noted with.
pub open spec fn skipped_note(path: Seq<char>, reason: Seq<char>) -> Seq<char> {
    "skipped '"@ + path + "': "@ + reason
}

/// Whether an entry is what a discovered file becomes: on-demand, the
/// defaults table's settings, the context it can be started with, the stock
/// server, and no draft or projector.
pub open spec fn discovered_as(e: Entry, id: Seq<char>, location: Seq<char>, defaults: Defaults, trained_for: Option<u64>) -> bool {
    &&& e.id@ == id
    &&& e.path.spec_text() == location
    &&& e.draft_path is None
    &&& e.projector_path is None
    &&& e.context_size == context_for_spec(defaults.context_size, trained_for)
    &&& e.residency == Residency::OnDemand
    &&& crate::catalog::entry::setting_text(e.reasoning_format) == crate::catalog::entry::setting_text(defaults.reasoning_format)
    &&& crate::catalog::entry::setting_text(e.reasoning_effort) == crate::catalog::entry::setting_text(defaults.reasoning_effort)
    &&& e.startup_timeout_seconds == match defaults.startup_timeout_seconds {
        Some(t) => t,
        None => DEFAULT_STARTUP_TIMEOUT_SECONDS,
    }
    &&& e.runtime is None
    &&& crate::proxy::reload::flag_texts(e.flags@) == crate::proxy::reload::flag_texts(defaults.flags@)
}

/// The entry one file becomes, and the note that says so; or no entry,
/// and the note that says why not.
pub fn discovered(
    id: String,
    location: RelativePath,
    defaults: &Defaults,
    trained_for: Option<u64>,
    files: &Result<Files, String>,
) -> (made: (Option<Entry>, String))
    requires
        files matches Ok(f) ==> f.shard_bytes@.len() <= u32::MAX,
    ensures
        match files {
            Ok(f) => made.0 matches Some(e) && discovered_as(e, id@, location.spec_text(), *defaults, trained_for)
                && e.memory_estimate_mib == derived(e, *f).mib && made.1@ == discovered_note(
                id@,
                location.spec_text(),
                derived(e, *f).mib,
                e.context_size,
                derived(e, *f).basis,
            ),
            Err(reason) => made.0 is None && made.1@ == skipped_note(location.spec_text(), reason@),
        },
{
    let context_size = context_for(defaults.context_size, trained_for);
    let flags = copy_flags(&defaults.flags);
    assert(crate::proxy::reload::flag_texts(flags@) =~= crate::proxy::reload::flag_texts(defaults.flags@));
    let mut entry = Entry {
        id,
        path: location,
        draft_path: None,
        projector_path: None,
        context_size,
        residency: Residency::OnDemand,
        memory_estimate_mib: 0,
        reasoning_format: copy_setting(&defaults.reasoning_format),
        reasoning_effort: copy_setting(&defaults.reasoning_effort),
        startup_timeout_seconds: match defaults.startup_timeout_seconds {
            Some(t) => t,
            None => DEFAULT_STARTUP_TIMEOUT_SECONDS,
        },
        runtime: None,
        flags,
    };
    match files {
        Ok(f) => {
            let estimate = derive_estimate(&entry, f);
            entry.memory_estimate_mib = estimate.mib;
            let mut note = String::new();
            push_str(&mut note, "discovered '");
            push_str(&mut note, entry.id.as_str());
            push_str(&mut note, "' at ");
            push_str(&mut note, entry.path.as_str());
            push_str(&mut note, ": ");
            push_decimal(&mut note, estimate.mib as u128);
            push_str(&mut note, " MiB estimated at ");
            push_decimal(&mut note, entry.context_size as u128);
            push_str(&mut note, " tokens of context");
            if estimate.basis == Basis::Size {
                push_str(&mut note, ", from file size alone");
            }
            (Some(entry), note)
        },
        Err(reason) => {
            let mut note = String::new();
            push_str(&mut note, "skipped '");
            push_str(&mut note, entry.path.as_str());
            push_str(&mut note, "': ");
            push_str(&mut note, reason.as_str());
            (None, note)
        },
    }
}

/// A model file the walk found: its path, what its metadata says it was
/// trained for, and what its files hold, or why they could not be read.
#[derive(Debug, PartialEq, Eq)]
pub struct Found {
    pub path: String,
    pub trained_for: Option<u64>,
    pub files: Result<Files, String>,
}

/// Whether what a found file holds is within what an estimate can sum.
pub open spec fn estimable(f: Found) -> bool {
    match f.files {
        Ok(files) => files.shard_bytes@.len() <= u32::MAX,
        Err(_) => true,
    }
}

/// The names a discovered entry may not take: the catalog's own, and those
/// the proxy answers for itself.
pub open spec fn initially_taken(entries: Seq<Entry>) -> Seq<Seq<char>> {
    crate::proxy::reload::ids(entries) + reserved()
}

proof fn lemma_identified_is_free(file: Seq<char>, taken: Seq<Seq<char>>)
    ensures
        identified(file, taken).0 matches Some(n) ==> !taken.contains(n),
{
}

/// Where the entries' locations resolve under the root: each entry's
/// model, then its draft and its projector where it has them.
pub open spec fn referenced_paths(root: Seq<char>, entries: Seq<Entry>) -> Seq<Seq<char>>
    decreases entries.len(),
{
    if entries.len() == 0 {
        Seq::empty()
    } else {
        let e = entries.last();
        referenced_paths(root, entries.drop_last()) + seq![path_join(root, e.path.spec_text())] + match e.draft_path {
            Some(d) => seq![path_join(root, d.spec_text())],
            None => Seq::empty(),
        } + match e.projector_path {
            Some(p) => seq![path_join(root, p.spec_text())],
            None => Seq::empty(),
        }
    }
}

/// What the entries' locations resolve to under the root.
fn referenced(root: &str, entries: &Vec<Entry>) -> (paths: Vec<String>)
    ensures
        views(paths@) == referenced_paths(root@, entries@),
{
    let mut paths: Vec<String> = Vec::new();
    let mut i: usize = 0;
    assert(entries@.take(0) =~= Seq::<Entry>::empty());
    assert(views(paths@) =~= Seq::<Seq<char>>::empty());
    while i < entries.len()
        invariant
            i <= entries@.len(),
            views(paths@) == referenced_paths(root@, entries@.take(i as int)),
        decreases entries@.len() - i,
    {
        assert(entries@.take(i + 1).drop_last() =~= entries@.take(i as int));
        let ghost before = views(paths@);
        let e = &entries[i];
        paths.push(resolve(root, &e.path));
        let ghost with_model = before + seq![path_join(root@, e.path.spec_text())];
        assert(views(paths@) =~= with_model);
        if let Some(d) = &e.draft_path {
            paths.push(resolve(root, d));
            assert(views(paths@) =~= with_model + seq![path_join(root@, d.spec_text())]);
        } else {
            assert(views(paths@) =~= with_model + Seq::<Seq<char>>::empty());
        }
        let ghost with_draft = views(paths@);
        if let Some(p) = &e.projector_path {
            paths.push(resolve(root, p));
            assert(views(paths@) =~= with_draft + seq![path_join(root@, p.spec_text())]);
        } else {
            assert(views(paths@) =~= with_draft + Seq::<Seq<char>>::empty());
        }
        i = i + 1;
    }
    assert(entries@.take(i as int) =~= entries@);
    paths
}

/// Where a found file would sit in a catalog, when a catalog can carry it.
pub open spec fn placed(root: Seq<char>, file: Seq<char>) -> Option<Seq<char>> {
    match relative_text(root, file) {
        Some(t) => if is_relative(t) { Some(t) } else { None },
        None => None,
    }
}

/// What a file a catalog cannot carry is noted with.
pub open spec fn unplaceable_note(file: Seq<char>) -> Seq<char> {
    "skipped '"@ + file + "': its path is not text this catalog can carry"@
}

/// Whether a file found is passed over in silence before anything else is
/// asked of it: an entry already names it, or its name is not a model's.
pub open spec fn passed_over(skip: Seq<Seq<char>>, f: Found) -> bool {
    skip.contains(f.path@) || !is_model_name(file_name(f.path@))
}

/// What has been taken once a file has been considered: the names entries
/// have taken, and the places in the catalog files have been found at. A
/// file found at a place already found is passed over in silence, as the
/// same file; any other takes its place, and the name its entry takes,
/// whether or not its files could be read.
pub open spec fn taken_by(
    root: Seq<char>,
    skip: Seq<Seq<char>>,
    f: Found,
    taken: (Seq<Seq<char>>, Seq<Seq<char>>),
) -> (Seq<Seq<char>>, Seq<Seq<char>>) {
    if passed_over(skip, f) {
        taken
    } else {
        match placed(root, f.path@) {
            None => taken,
            Some(location) => if taken.1.contains(location) {
                taken
            } else {
                (
                    match identified(f.path@, taken.0).0 {
                        Some(id) => taken.0.push(id),
                        None => taken.0,
                    },
                    taken.1.push(location),
                )
            },
        }
    }
}

/// What has been taken once these files have been considered in turn.
pub open spec fn taken_after(
    root: Seq<char>,
    skip: Seq<Seq<char>>,
    found: Seq<Found>,
    taken: (Seq<Seq<char>>, Seq<Seq<char>>),
) -> (Seq<Seq<char>>, Seq<Seq<char>>)
    decreases found.len(),
{
    if found.len() == 0 {
        taken
    } else {
        taken_by(root, skip, found.last(), taken_after(root, skip, found.drop_last(), taken))
    }
}

/// Whether considering one file makes these entries, none or one, and
/// leaves these notes: a file an entry names, one whose name is not a
/// model's, and one at a place already found are passed over in silence;
/// one a catalog cannot carry, or one no free name is left for, is noted
/// and passed over; one whose files cannot be read takes its name and is
/// noted; any other becomes an entry and is noted with its estimate.
pub open spec fn considered(
    root: Seq<char>,
    skip: Seq<Seq<char>>,
    f: Found,
    taken: (Seq<Seq<char>>, Seq<Seq<char>>),
    defaults: Defaults,
    made: Seq<Entry>,
    notes: Seq<Seq<char>>,
) -> bool {
    if passed_over(skip, f) {
        made.len() == 0 && notes.len() == 0
    } else {
        match placed(root, f.path@) {
            None => made.len() == 0 && notes == seq![unplaceable_note(f.path@)],
            Some(location) => if taken.1.contains(location) {
                made.len() == 0 && notes.len() == 0
            } else {
                let named = identified(f.path@, taken.0);
                let first = match named.1 {
                    Some(t) => seq![t],
                    None => Seq::empty(),
                };
                match named.0 {
                    None => made.len() == 0 && notes == first,
                    Some(id) => match f.files {
                        Ok(files) => made.len() == 1 && discovered_as(made[0], id, location, defaults, f.trained_for)
                            && made[0].memory_estimate_mib == derived(made[0], files).mib && notes == first.push(
                            discovered_note(
                                id,
                                location,
                                derived(made[0], files).mib,
                                made[0].context_size,
                                derived(made[0], files).basis,
                            ),
                        ),
                        Err(reason) => made.len() == 0 && notes == first.push(skipped_note(location, reason@)),
                    },
                }
            },
        }
    }
}

/// Whether considering the files in turn makes these entries and leaves
/// these notes: each file's after those of the files before it.
pub open spec fn walked(
    root: Seq<char>,
    skip: Seq<Seq<char>>,
    found: Seq<Found>,
    taken: (Seq<Seq<char>>, Seq<Seq<char>>),
    defaults: Defaults,
    made: Seq<Entry>,
    notes: Seq<Seq<char>>,
) -> bool
    decreases found.len(),
{
    if found.len() == 0 {
        made.len() == 0 && notes.len() == 0
    } else {
        exists|a: int, b: int|
            #![trigger made.take(a), notes.take(b)]
            0 <= a <= made.len() && 0 <= b <= notes.len() && walked(
                root,
                skip,
                found.drop_last(),
                taken,
                defaults,
                made.take(a),
                notes.take(b),
            ) && considered(
                root,
                skip,
                found.last(),
                taken_after(root, skip, found.drop_last(), taken),
                defaults,
                made.skip(a),
                notes.skip(b),
            )
    }
}

/// The entries made, none or one, as a sequence.
pub open spec fn made_seq(made: Option<Entry>) -> Seq<Entry> {
    match made {
        Some(e) => seq![e],
        None => Seq::empty(),
    }
}

/// The name of the file a path ends in.
fn file_name_of(path: &str) -> (name: String)
    ensures
        name@ == file_name(path@),
{
    let chars = chars_of(path);
    let start: usize = match last_index(&chars, '/') {
        Some(at) => at + 1,
        None => 0,
    };
    let name = string_of(&subrange_chars(&chars, start, chars.len()));
    assert(name@ =~= file_name(path@));
    name
}

/// Considers one file found: passes over one an entry names, one that is
/// no model's file and one at a place already found, notes one that cannot
/// be carried or named, and makes an entry of any other whose files could
/// be read.
fn consider(
    root: &str,
    skip: &Vec<String>,
    f: &Found,
    defaults: &Defaults,
    taken: &mut Vec<String>,
    seen: &mut Vec<String>,
    notes: &mut Vec<String>,
) -> (made: Option<Entry>)
    requires
        estimable(*f),
    ensures
        (views(final(taken)@), views(final(seen)@)) == taken_by(
            root@,
            views(skip@),
            *f,
            (views(old(taken)@), views(old(seen)@)),
        ),
        views(final(notes)@).len() >= views(old(notes)@).len(),
        views(final(notes)@).take(old(notes)@.len() as int) == views(old(notes)@),
        considered(
            root@,
            views(skip@),
            *f,
            (views(old(taken)@), views(old(seen)@)),
            *defaults,
            made_seq(made),
            views(final(notes)@).skip(old(notes)@.len() as int),
        ),
        made matches Some(e) ==> {
            &&& !views(old(taken)@).contains(e.id@)
            &&& !views(old(seen)@).contains(e.path.spec_text())
            &&& !passed_over(views(skip@), *f)
            &&& placed(root@, f.path@) == Some(e.path.spec_text())
            &&& e.residency == Residency::OnDemand
        },
{
    let ghost start = views(notes@);
    let ghost before = views(taken@);
    let ghost seen_before = views(seen@);
    assert(start.take(start.len() as int) =~= start);
    assert(start.skip(start.len() as int) =~= Seq::<Seq<char>>::empty());
    if contains_text(skip, f.path.as_str()) {
        return None;
    }
    let name = file_name_of(f.path.as_str());
    if !super::name::is_model(name.as_str()) {
        return None;
    }
    let location = match relative(root, f.path.as_str()) {
        Some(l) => l,
        None => {
            let mut note = String::new();
            push_str(&mut note, "skipped '");
            push_str(&mut note, f.path.as_str());
            push_str(&mut note, "': its path is not text this catalog can carry");
            notes.push(note);
            assert(views(notes@) =~= start.push(unplaceable_note(f.path@)));
            assert(views(notes@).take(start.len() as int) =~= start);
            assert(views(notes@).skip(start.len() as int) =~= seq![unplaceable_note(f.path@)]);
            return None;
        },
    };
    if contains_text(seen, location.as_str()) {
        return None;
    }
    let place = string_of(&chars_of(location.as_str()));
    seen.push(place);
    assert(views(seen@) =~= seen_before.push(location.spec_text()));
    let ghost location_text = location.spec_text();
    let id = match identifier(f.path.as_str(), taken, notes) {
        Some(id) => id,
        None => {
            assert(views(notes@).take(start.len() as int) =~= start);
            proof {
                match identified(f.path@, before).1 {
                    Some(t) => assert(views(notes@).skip(start.len() as int) =~= seq![t]),
                    None => assert(views(notes@).skip(start.len() as int) =~= Seq::<Seq<char>>::empty()),
                }
            }
            return None;
        },
    };
    proof {
        lemma_identified_is_free(f.path@, before);
    }
    let ghost after_name = views(notes@);
    let (entry, note) = discovered(id, location, defaults, f.trained_for, &f.files);
    notes.push(note);
    assert(views(notes@) =~= after_name.push(note@));
    assert(views(notes@).take(start.len() as int) =~= start);
    proof {
        let first = match identified(f.path@, before).1 {
            Some(t) => seq![t],
            None => Seq::<Seq<char>>::empty(),
        };
        assert(after_name =~= start + first);
        assert(views(notes@).skip(start.len() as int) =~= first.push(note@));
        if entry is Some {
            assert(made_seq(entry)[0] == entry->Some_0);
            assert(entry->Some_0.path.spec_text() == location_text);
        }
    }
    entry
}

/// Every model file found under `root` that the entries do not name, as
/// entries, each under a name nothing else has: not an entry's, not one the
/// proxy answers for, and not another discovered file's; and each at a
/// place no other has. What became of each file is added to the notes.
pub fn under(root: &str, entries: &Vec<Entry>, defaults: &Defaults, found: &Vec<Found>, notes: &mut Vec<String>) -> (made: Vec<Entry>)
    requires
        forall|i: int| 0 <= i < found@.len() ==> estimable(#[trigger] found@[i]),
    ensures
        views(final(notes)@).len() >= views(old(notes)@).len(),
        views(final(notes)@).take(old(notes)@.len() as int) == views(old(notes)@),
        walked(
            root@,
            referenced_paths(root@, entries@),
            found@,
            (initially_taken(entries@), Seq::empty()),
            *defaults,
            made@,
            views(final(notes)@).skip(old(notes)@.len() as int),
        ),
        forall|i: int| 0 <= i < made@.len() ==> !initially_taken(entries@).contains(#[trigger] made@[i].id@),
        forall|i: int, j: int| 0 <= i < j < made@.len() ==> made@[i].id@ != made@[j].id@,
        forall|i: int, j: int| 0 <= i < j < made@.len() ==> made@[i].path.spec_text() != made@[j].path.spec_text(),
        forall|i: int| 0 <= i < made@.len() ==> (#[trigger] made@[i]).residency == Residency::OnDemand,
        forall|i: int|
            0 <= i < made@.len() ==> exists|k: int|
                0 <= k < found@.len() && !referenced_paths(root@, entries@).contains(found@[k].path@) && is_model_name(
                    file_name(found@[k].path@),
                ) && placed(root@, found@[k].path@) == Some((#[trigger] made@[i]).path.spec_text()),
{
    let skip = referenced(root, entries);
    let ghost skipped = views(skip@);
    let mut taken: Vec<String> = crate::proxy::reload::ids_of_entries(entries);
    let load = String::from_str("load");
    let unload = String::from_str("unload");
    taken.push(load);
    taken.push(unload);
    assert(views(taken@) =~= initially_taken(entries@));
    let ghost first = views(taken@);
    let mut seen: Vec<String> = Vec::new();
    assert(views(seen@) =~= Seq::<Seq<char>>::empty());
    let ghost start = views(notes@);
    let mut made: Vec<Entry> = Vec::new();
    let mut i: usize = 0;
    assert(found@.take(0) =~= Seq::<Found>::empty());
    assert(start.take(start.len() as int) =~= start);
    assert(start.skip(start.len() as int) =~= Seq::<Seq<char>>::empty());
    while i < found.len()
        invariant
            i <= found@.len(),
            first == initially_taken(entries@),
            skipped == views(skip@),
            skipped == referenced_paths(root@, entries@),
            forall|k: int| 0 <= k < found@.len() ==> estimable(#[trigger] found@[k]),
            (views(taken@), views(seen@)) == taken_after(
                root@,
                skipped,
                found@.take(i as int),
                (first, Seq::<Seq<char>>::empty()),
            ),
            views(notes@).len() >= start.len(),
            views(notes@).take(start.len() as int) == start,
            walked(
                root@,
                skipped,
                found@.take(i as int),
                (first, Seq::<Seq<char>>::empty()),
                *defaults,
                made@,
                views(notes@).skip(start.len() as int),
            ),
            forall|x: Seq<char>| first.contains(x) ==> views(taken@).contains(x),
            forall|k: int| 0 <= k < made@.len() ==> views(taken@).contains(#[trigger] made@[k].id@),
            forall|k: int| 0 <= k < made@.len() ==> !first.contains(#[trigger] made@[k].id@),
            forall|a: int, b: int| 0 <= a < b < made@.len() ==> made@[a].id@ != made@[b].id@,
            forall|k: int| 0 <= k < made@.len() ==> views(seen@).contains((#[trigger] made@[k]).path.spec_text()),
            forall|a: int, b: int| 0 <= a < b < made@.len() ==> made@[a].path.spec_text() != made@[b].path.spec_text(),
            forall|k: int| 0 <= k < made@.len() ==> (#[trigger] made@[k]).residency == Residency::OnDemand,
            forall|k: int|
                0 <= k < made@.len() ==> exists|j: int|
                    0 <= j < i && !skipped.contains(found@[j].path@) && is_model_name(file_name(found@[j].path@))
                        && placed(root@, found@[j].path@) == Some((#[trigger] made@[k]).path.spec_text()),
        decreases found@.len() - i,
    {
        let ghost was_taken = views(taken@);
        let ghost was_seen = views(seen@);
        let ghost was_made = made@;
        let ghost was_notes = views(notes@);
        let ghost done = was_notes.skip(start.len() as int);
        assert(found@.take(i + 1).drop_last() =~= found@.take(i as int));
        assert(found@.take(i + 1).last() == found@[i as int]);
        let entry = consider(root, &skip, &found[i], defaults, &mut taken, &mut seen, notes);
        proof {
            let now = views(notes@);
            let added = now.skip(was_notes.len() as int);
            assert(now.take(start.len() as int) =~= start) by {
                assert(now.take(was_notes.len() as int) == was_notes);
            }
            let all_notes = now.skip(start.len() as int);
            assert(all_notes.take(done.len() as int) =~= done);
            assert(all_notes.skip(done.len() as int) =~= added);
            assert forall|x: Seq<char>| first.contains(x) implies views(taken@).contains(x) by {
                let k = choose|k: int| 0 <= k < was_taken.len() && was_taken[k] == x;
                assert(views(taken@)[k] == x);
            }
            assert forall|k: int| 0 <= k < made@.len() implies views(taken@).contains(#[trigger] made@[k].id@) by {
                let j = choose|j: int| 0 <= j < was_taken.len() && was_taken[j] == made@[k].id@;
                assert(views(taken@)[j] == made@[k].id@);
            }
            assert forall|k: int| 0 <= k < made@.len() implies views(seen@).contains((#[trigger] made@[k]).path.spec_text()) by {
                let j = choose|j: int| 0 <= j < was_seen.len() && was_seen[j] == made@[k].path.spec_text();
                assert(views(seen@)[j] == made@[k].path.spec_text());
            }
            assert forall|k: int| 0 <= k < made@.len() implies exists|j: int|
                0 <= j < i + 1 && !skipped.contains(found@[j].path@) && is_model_name(file_name(found@[j].path@))
                    && placed(root@, found@[j].path@) == Some((#[trigger] made@[k]).path.spec_text()) by {
                let j = choose|j: int|
                    0 <= j < i && !skipped.contains(found@[j].path@) && is_model_name(file_name(found@[j].path@))
                        && placed(root@, found@[j].path@) == Some(made@[k].path.spec_text());
            }
        }
        if let Some(e) = entry {
            let ghost placed_id = e.id@;
            let ghost placed_at = e.path.spec_text();
            made.push(e);
            proof {
                let fi = found@[i as int];
                assert(views(taken@) == was_taken.push(placed_id) && views(seen@) == was_seen.push(placed_at)) by {
                    assert(considered(root@, skipped, fi, (was_taken, was_seen), *defaults, seq![made@[was_made.len() as int]], views(notes@).skip(was_notes.len() as int)));
                }
                assert(views(taken@)[was_taken.len() as int] == placed_id);
                assert(views(seen@)[was_seen.len() as int] == placed_at);
                assert forall|k: int| 0 <= k < made@.len() implies views(taken@).contains(#[trigger] made@[k].id@) by {
                    if k < was_made.len() {
                        assert(made@[k] == was_made[k]);
                        let j = choose|j: int| 0 <= j < was_taken.len() && was_taken[j] == was_made[k].id@;
                        assert(views(taken@)[j] == made@[k].id@);
                    }
                }
                assert forall|k: int| 0 <= k < made@.len() implies views(seen@).contains((#[trigger] made@[k]).path.spec_text()) by {
                    if k < was_made.len() {
                        assert(made@[k] == was_made[k]);
                        let j = choose|j: int| 0 <= j < was_seen.len() && was_seen[j] == was_made[k].path.spec_text();
                        assert(views(seen@)[j] == made@[k].path.spec_text());
                    }
                }
                assert forall|a: int, b: int| 0 <= a < b < made@.len() implies made@[a].id@ != made@[b].id@ by {
                    if b == was_made.len() {
                        assert(made@[a] == was_made[a]);
                        assert(was_taken.contains(was_made[a].id@));
                    }
                }
                assert forall|a: int, b: int| 0 <= a < b < made@.len() implies made@[a].path.spec_text()
                    != made@[b].path.spec_text() by {
                    if b == was_made.len() {
                        assert(made@[a] == was_made[a]);
                        assert(was_seen.contains(was_made[a].path.spec_text()));
                    }
                }
                assert forall|k: int| 0 <= k < made@.len() implies (#[trigger] made@[k]).residency == Residency::OnDemand by {
                    if k < was_made.len() {
                        assert(made@[k] == was_made[k]);
                    }
                }
                assert forall|k: int| 0 <= k < made@.len() implies exists|j: int|
                    0 <= j < i + 1 && !skipped.contains(found@[j].path@) && is_model_name(file_name(found@[j].path@))
                        && placed(root@, found@[j].path@) == Some((#[trigger] made@[k]).path.spec_text()) by {
                    if k < was_made.len() {
                        assert(made@[k] == was_made[k]);
                        let j = choose|j: int|
                            0 <= j < i && !skipped.contains(found@[j].path@) && is_model_name(file_name(found@[j].path@))
                                && placed(root@, found@[j].path@) == Some(was_made[k].path.spec_text());
                    } else {
                        assert(made@[k].path.spec_text() == placed_at);
                        assert(placed(root@, found@[i as int].path@) == Some(placed_at));
                    }
                }
                assert(!first.contains(placed_id)) by {
                    if first.contains(placed_id) {
                        assert(was_taken.contains(placed_id));
                    }
                }
                assert(made@.take(was_made.len() as int) =~= was_made);
                assert(made@.skip(was_made.len() as int) =~= made_seq(entry));
                let all_notes = views(notes@).skip(start.len() as int);
                assert(all_notes.take(done.len() as int) =~= done);
                assert(walked(root@, skipped, found@.take(i + 1), (first, Seq::<Seq<char>>::empty()), *defaults, made@, all_notes));
            }
        } else {
            proof {
                assert(made@.take(was_made.len() as int) =~= was_made);
                assert(made@.skip(was_made.len() as int) =~= made_seq(entry));
                let all_notes = views(notes@).skip(start.len() as int);
                assert(all_notes.take(done.len() as int) =~= done);
                assert(walked(root@, skipped, found@.take(i + 1), (first, Seq::<Seq<char>>::empty()), *defaults, made@, all_notes));
            }
        }
        i = i + 1;
    }
    assert(found@.take(i as int) =~= found@);
    made
}

/// A discovered entry never asks for more context than its model was
/// trained for, when the file says: what the defaults configure where that
/// fits, else all the model was trained for. Where the file says nothing it
/// gets what the defaults configure, or the server's own 4096.
pub proof fn law_a_discovered_context_never_exceeds_training(configured: Option<u32>, trained: u64)
    ensures
        0 < trained <= u32::MAX ==> context_for_spec(configured, Some(trained)) <= trained,
        0 < trained <= u32::MAX ==> match configured {
            Some(c) => context_for_spec(configured, Some(trained)) == (if c <= trained { c as int } else { trained as int }),
            None => context_for_spec(configured, Some(trained)) == trained,
        },
        context_for_spec(configured, None) == match configured {
            Some(c) => c,
            None => 4096,
        },
{
}

} // verus!
