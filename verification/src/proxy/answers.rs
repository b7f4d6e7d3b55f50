//! The JSON the router answers with out of its own state: the listing an
//! OpenAI client reads, the one a llama.cpp client reads in router mode,
//! what a reload changed, and what this server does.
//!
//! Saying what *could* be served is never a reason to start serving it, so
//! every one of these is written from the catalog and what admission holds,
//! and none of them reaches a child. Keys are written in the order the
//! replies have always carried them.

use vstd::prelude::*;

use super::metrics::{held_lookup, held_value};
use super::refusal::{Cause, Refusal};
use super::reload::Reloaded;
use crate::catalog::entry::Entry;
use crate::catalog::estimate::served::{keeps_no_cache, keeps_no_cache_spec};
use crate::catalog::listing::{contains_text, Catalog};
use crate::json::{json_array, json_quoted, json_string, push_json_array};
use crate::text::{decimal, joined, push_decimal, push_str, views};

verus! {

/// One entry in the OpenAI listing.
pub open spec fn listing_item(id: Seq<char>) -> Seq<char> {
    "{\"id\":"@ + json_string(id) + ",\"object\":\"model\",\"owned_by\":\"model-router\"}"@
}

/// Every entry the catalog carries, in the shape an OpenAI client expects.
pub open spec fn listing_text(entries: Seq<Entry>) -> Seq<char> {
    "{\"object\":\"list\",\"data\":["@ + joined(entries.map_values(|e: Entry| listing_item(e.id@)), ","@) + "]}"@
}

/// Every entry the catalog carries, as the OpenAI listing.
pub fn listing(catalog: &Catalog) -> (body: String)
    ensures
        body@ == listing_text(catalog.entries@),
{
    let ghost items = catalog.entries@.map_values(|e: Entry| listing_item(e.id@));
    let mut out = String::new();
    push_str(&mut out, "{\"object\":\"list\",\"data\":[");
    let ghost start = out@;
    let mut i: usize = 0;
    while i < catalog.entries.len()
        invariant
            i <= catalog.entries@.len(),
            items == catalog.entries@.map_values(|e: Entry| listing_item(e.id@)),
            out@ == start + joined(items.take(i as int), ","@),
        decreases catalog.entries@.len() - i,
    {
        assert(items.take(i + 1).drop_last() =~= items.take(i as int));
        assert(items.take(i + 1).last() == listing_item(catalog.entries@[i as int].id@));
        if i > 0 {
            push_str(&mut out, ",");
        }
        push_str(&mut out, "{\"id\":");
        let q = json_quoted(catalog.entries[i].id.as_str());
        push_str(&mut out, q.as_str());
        push_str(&mut out, ",\"object\":\"model\",\"owned_by\":\"model-router\"}");
        proof {
            if i == 0 {
                assert(joined(items.take(0), ","@) =~= Seq::<char>::empty());
            }
        }
        assert(out@ =~= start + joined(items.take(i + 1), ","@));
        i = i + 1;
    }
    assert(items.take(i as int) =~= items);
    push_str(&mut out, "]}");
    assert(out@ =~= listing_text(catalog.entries@));
    out
}

/// Whether an entry can hold a conversation: one that embeds or reranks
/// generates nothing, and a client choosing something to talk to is not
/// offered it.
pub open spec fn generates(e: Entry) -> bool {
    !keeps_no_cache_spec(e.flags@)
}

/// What an entry can be sent: text, and images when it names a projector.
pub open spec fn modalities(e: Entry) -> Seq<char> {
    if e.projector_path is Some {
        "[\"text\",\"image\"]"@
    } else {
        "[\"text\"]"@
    }
}

/// One entry as a llama.cpp client reads it in router mode: loaded or not,
/// never failed, a preset, the context it was configured with, what it
/// takes, and what it was estimated at beside what it was measured holding.
pub open spec fn catalogue_item(e: Entry, loaded: bool, held: Option<u64>) -> Seq<char> {
    "{\"id\":"@ + json_string(e.id@) + ",\"object\":\"model\",\"owned_by\":\"model-router\",\"status\":{\"value\":"@
        + (if loaded { "\"loaded\""@ } else { "\"unloaded\""@ }) + ",\"failed\":false},\"source\":\"preset\",\"meta\":{\"n_ctx\":"@
        + decimal(e.context_size as nat) + catalogue_tail(e, held)
}

/// The entries that can hold a conversation, each as a client reads it.
pub open spec fn catalogue_items(
    entries: Seq<Entry>,
    loaded: Seq<Seq<char>>,
    held: Seq<(String, Option<u64>)>,
) -> Seq<Seq<char>>
    decreases entries.len(),
{
    if entries.len() == 0 {
        Seq::empty()
    } else {
        let rest = catalogue_items(entries.drop_last(), loaded, held);
        let e = entries.last();
        if generates(e) {
            rest.push(catalogue_item(e, loaded.contains(e.id@), held_value(held, e.id@)))
        } else {
            rest
        }
    }
}

/// The router-mode listing.
pub open spec fn catalogue_text(entries: Seq<Entry>, loaded: Seq<Seq<char>>, held: Seq<(String, Option<u64>)>) -> Seq<char> {
    "{\"object\":\"list\",\"data\":["@ + joined(catalogue_items(entries, loaded, held), ","@) + "]}"@
}

/// The part of an entry's object after its context.
pub open spec fn catalogue_tail(e: Entry, held: Option<u64>) -> Seq<char> {
    "},\"architecture\":{\"input_modalities\":"@ + modalities(e) + "},\"memory\":{\"declared_mib\":"@ + decimal(
        e.memory_estimate_mib as nat,
    ) + ",\"held_mib\":"@ + match held {
        Some(mib) => decimal(mib as nat),
        None => "null"@,
    } + "}}"@
}

fn push_catalogue_tail(out: &mut String, e: &Entry, held: Option<u64>)
    ensures
        final(out)@ == old(out)@ + catalogue_tail(*e, held),
{
    let ghost start = out@;
    push_str(out, "},\"architecture\":{\"input_modalities\":");
    if e.projector_path.is_some() {
        push_str(out, "[\"text\",\"image\"]");
    } else {
        push_str(out, "[\"text\"]");
    }
    push_str(out, "},\"memory\":{\"declared_mib\":");
    push_decimal(out, e.memory_estimate_mib as u128);
    push_str(out, ",\"held_mib\":");
    match held {
        Some(mib) => push_decimal(out, mib as u128),
        None => push_str(out, "null"),
    }
    push_str(out, "}}");
    assert(out@ =~= start + catalogue_tail(*e, held));
}

fn push_catalogue_item(out: &mut String, e: &Entry, loaded: bool, held: Option<u64>)
    ensures
        final(out)@ == old(out)@ + catalogue_item(*e, loaded, held),
{
    let ghost start = out@;
    push_str(out, "{\"id\":");
    let q = json_quoted(e.id.as_str());
    push_str(out, q.as_str());
    push_str(out, ",\"object\":\"model\",\"owned_by\":\"model-router\",\"status\":{\"value\":");
    if loaded {
        push_str(out, "\"loaded\"");
    } else {
        push_str(out, "\"unloaded\"");
    }
    push_str(out, ",\"failed\":false},\"source\":\"preset\",\"meta\":{\"n_ctx\":");
    push_decimal(out, e.context_size as u128);
    push_catalogue_tail(out, e, held);
    assert(out@ =~= start + catalogue_item(*e, loaded, held));
}

/// Every entry that can hold a conversation, with whether a child holds it
/// and what it was measured holding, as a llama.cpp client reads it.
pub fn catalogue(catalog: &Catalog, loaded: &Vec<String>, held: &Vec<(String, Option<u64>)>) -> (body: String)
    ensures
        body@ == catalogue_text(catalog.entries@, views(loaded@), held@),
{
    let entries = &catalog.entries;
    let mut out = String::new();
    push_str(&mut out, "{\"object\":\"list\",\"data\":[");
    let ghost start = out@;
    let mut written: usize = 0;
    let mut i: usize = 0;
    while i < entries.len()
        invariant
            i <= entries@.len(),
            written == catalogue_items(entries@.take(i as int), views(loaded@), held@).len(),
            written <= i,
            out@ == start + joined(catalogue_items(entries@.take(i as int), views(loaded@), held@), ","@),
        decreases entries@.len() - i,
    {
        let ghost rest = catalogue_items(entries@.take(i as int), views(loaded@), held@);
        assert(entries@.take(i + 1).drop_last() =~= entries@.take(i as int));
        assert(entries@.take(i + 1).last() == entries@[i as int]);
        let e = &entries[i];
        if !keeps_no_cache(&e.flags) {
            if written > 0 {
                push_str(&mut out, ",");
            }
            let is_loaded = contains_text(loaded, e.id.as_str());
            let measured = held_lookup(held, e.id.as_str());
            push_catalogue_item(&mut out, e, is_loaded, measured);
            let ghost item = catalogue_item(*e, is_loaded, measured);
            assert(rest.push(item).drop_last() =~= rest);
            proof {
                if written == 0 {
                    assert(joined(rest, ","@) =~= Seq::<char>::empty());
                }
            }
            assert(out@ =~= start + joined(rest.push(item), ","@));
            written = written + 1;
        }
        i = i + 1;
    }
    assert(entries@.take(i as int) =~= entries@);
    push_str(&mut out, "]}");
    assert(out@ =~= catalogue_text(entries@, views(loaded@), held@));
    out
}

/// What a reload changed, as its reply says.
pub open spec fn reload_text(added: Seq<Seq<char>>, removed: Seq<Seq<char>>, superseded: Seq<Seq<char>>) -> Seq<char> {
    "{\"object\":\"reload\",\"added\":"@ + json_array(added) + ",\"removed\":"@ + json_array(removed)
        + ",\"superseded\":"@ + json_array(superseded) + "}"@
}

/// What a reload changed, as its reply says it.
pub fn reload_reply(changed: &Reloaded) -> (body: String)
    ensures
        body@ == reload_text(views(changed.added@), views(changed.removed@), views(changed.superseded@)),
{
    let mut out = String::new();
    push_str(&mut out, "{\"object\":\"reload\",\"added\":");
    push_json_array(&mut out, &changed.added);
    push_str(&mut out, ",\"removed\":");
    push_json_array(&mut out, &changed.removed);
    push_str(&mut out, ",\"superseded\":");
    push_json_array(&mut out, &changed.superseded);
    push_str(&mut out, "}");
    assert(out@ =~= reload_text(views(changed.added@), views(changed.removed@), views(changed.superseded@)));
    out
}

/// What this server does: it loads a model a request asks for, and says
/// which build is answering.
pub open spec fn properties_text(version: Seq<char>, commit: Seq<char>) -> Seq<char> {
    "{\"models_autoload\":true,\"build\":{\"version\":"@ + json_string(version) + ",\"commit\":"@
        + json_string(commit) + "}}"@
}

/// What this server does, as the one field a client reads from it.
pub fn properties(version: &str, commit: &str) -> (body: String)
    ensures
        body@ == properties_text(version@, commit@),
{
    let mut out = String::new();
    push_str(&mut out, "{\"models_autoload\":true,\"build\":{\"version\":");
    let v = json_quoted(version);
    push_str(&mut out, v.as_str());
    push_str(&mut out, ",\"commit\":");
    let c = json_quoted(commit);
    push_str(&mut out, c.as_str());
    push_str(&mut out, "}}");
    assert(out@ =~= properties_text(version@, commit@));
    out
}

} // verus!

verus! {

/// What llama.cpp answers a load or an unload with.
pub open spec fn done_text() -> Seq<char> {
    "{\"success\":true}"@
}

/// What a load or an unload is answered with once it is done.
pub fn done() -> (body: String)
    ensures
        body@ == done_text(),
{
    let mut body = String::new();
    push_str(&mut body, "{\"success\":true}");
    body
}

/// Why an unload of a model that is answering a request is refused.
pub open spec fn busy_text(id: Seq<char>) -> Seq<char> {
    "'"@ + id + "' is answering a request; unload it once that ends"@
}

/// The refusal for an unload of a model that is answering a request:
/// cutting a caller off mid-answer is not what an operator freeing memory
/// means.
pub fn busy(id: &str) -> (refusal: Refusal)
    ensures
        refusal.spec_cause() == Cause::ModelBusy,
        refusal.spec_message() == busy_text(id@),
{
    let mut m = String::new();
    push_str(&mut m, "'");
    push_str(&mut m, id);
    push_str(&mut m, "' is answering a request; unload it once that ends");
    Refusal::new(Cause::ModelBusy, m)
}

/// Why a reload was refused.
pub open spec fn not_reloaded_text(reason: Seq<char>) -> Seq<char> {
    "the catalog was not reloaded and the one already serving is untouched: "@ + reason
}

/// The refusal for a reload whose file cannot be read or parsed: the
/// caller's file is what is wrong, and the catalog already serving stays.
pub fn not_reloaded(reason: &str) -> (refusal: Refusal)
    ensures
        refusal.spec_cause() == Cause::CatalogUnreadable,
        refusal.spec_message() == not_reloaded_text(reason@),
{
    let mut m = String::new();
    push_str(&mut m, "the catalog was not reloaded and the one already serving is untouched: ");
    push_str(&mut m, reason);
    Refusal::new(Cause::CatalogUnreadable, m)
}

/// Why a request naming no entry is refused: what it named, and what the
/// catalog does carry.
pub open spec fn no_such_model_text(id: Seq<char>, entries: Seq<Entry>) -> Seq<char> {
    "no model called '"@ + id + "'; this catalog carries: "@ + joined(crate::proxy::reload::ids(entries), ", "@)
}

/// The refusal for a request naming no entry the catalog carries.
pub fn no_such_model(id: &str, catalog: &Catalog) -> (refusal: Refusal)
    ensures
        refusal.spec_cause() == Cause::ModelNotFound,
        refusal.spec_message() == no_such_model_text(id@, catalog.entries@),
{
    let mut m = String::new();
    push_str(&mut m, "no model called '");
    push_str(&mut m, id);
    push_str(&mut m, "'; this catalog carries: ");
    let carried = crate::proxy::reload::known(catalog);
    push_str(&mut m, carried.as_str());
    Refusal::new(Cause::ModelNotFound, m)
}

} // verus!
