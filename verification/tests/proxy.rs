use maestro_model_router::proxy::listen::{address_pieces, refused_to_bind};
use maestro_model_router::proxy::permits::Permits;
use maestro_model_router::access::same;
use maestro_model_router::admission::Decision;
use maestro_model_router::catalog::{Catalog, Entry, RelativePath, Residency, Sources};
use maestro_model_router::launch::Failure;
use maestro_model_router::proxy::answers::{catalogue, listing, properties, reload_reply};
use maestro_model_router::proxy::metrics::{exposition, gauge, label};
use maestro_model_router::proxy::refusal::{reason, Cause, Refusal};
use maestro_model_router::proxy::reload::{changes, keep_slots, known, Reloaded};
use maestro_model_router::proxy::reply::{byte_len, json_reply, preflight_reply, refusal_reply, reply};
use maestro_model_router::proxy::room::{after_look, before_look, dropped_before_admitted, look, refused, unloading_line, Look, Next, Room};
use maestro_model_router::proxy::Access;
use maestro_model_router::proxy::shared::Shared;
use maestro_model_router::proxy::table::SlotTable;

fn entry(id: &str) -> Entry {
    Entry {
        id: id.to_owned(),
        path: RelativePath::new("m.gguf").expect("relative"),
        draft_path: None,
        projector_path: None,
        context_size: 4096,
        residency: Residency::OnDemand,
        memory_estimate_mib: 512,
        reasoning_format: None,
        reasoning_effort: None,
        startup_timeout_seconds: 300,
        runtime: None,
        flags: Vec::new(),
    }
}

fn catalog(entries: Vec<Entry>) -> Catalog {
    Catalog { version: 1, entries, sources: Sources::none() }
}

#[test]
fn keys_are_equal_only_when_every_byte_is() {
    assert!(same("s3cret", "s3cret"));
    assert!(!same("s3cres", "s3cret"), "one byte differs");
    assert!(!same("s3cre", "s3cret"), "a prefix is not the key");
    assert!(!same("s3crets", "s3cret"), "nor is a longer guess");
    assert!(!same("ab", "ba"), "nor the key's bytes in another order");
}

#[test]
fn access_the_startup_line_names_the_rules_and_never_the_key() {
    let open = Access::default().described();
    assert!(open.contains("no key is required") && open.contains("any browser origin"));

    let guarded = Access::from_variables(
        Some("s3cret".into()),
        Some("http://a.example, http://b.example".into()),
    )
    .described();
    assert!(guarded.contains("a key is required"), "{guarded}");
    assert!(guarded.contains("http://a.example, http://b.example"), "{guarded}");
    assert!(!guarded.contains("s3cret"), "the key is never printed: {guarded}");
}

#[test]
fn a_label_escapes_what_would_end_or_break_it() {
    assert_eq!(label("a\\b\"c\nd"), "a\\\\b\\\"c\\nd");
}

#[test]
fn a_label_with_nothing_to_escape_is_left_alone() {
    assert_eq!(label("gemma3-4b.q4"), "gemma3-4b.q4");
}

#[test]
fn a_gauge_without_labels_is_written_bare() {
    let mut out = String::new();
    gauge(&mut out, "up", "Whether it is.", &[(String::new(), 1)]);
    assert_eq!(out, "# HELP up Whether it is.\n# TYPE up gauge\nup 1\n");
}

#[test]
fn every_status_a_cause_carries_has_a_reason_phrase_of_its_own() {
    for cause in [
        Cause::MalformedRequest,
        Cause::HeadTooLarge,
        Cause::RequestTimeout,
        Cause::PathNotFound,
        Cause::MethodNotAllowed("GET"),
        Cause::ChunkedBody,
        Cause::LengthRequired,
        Cause::BodyTooLarge,
        Cause::ChildUnavailable,
        Cause::RoomContended,
    ] {
        assert_ne!(
            reason(cause.status()),
            "Gateway Timeout",
            "{cause:?} carries {} and must not fall through to the phrase kept for 504",
            cause.status()
        );
    }
    assert_eq!(reason(Cause::StartupTimeout.status()), "Gateway Timeout");
}

#[test]
fn the_statuses_a_key_an_origin_and_a_busy_model_carry_are_named() {
    assert_eq!(reason(Cause::Unauthorized.status()), "Unauthorized");
    assert_eq!(reason(Cause::OriginNotAllowed.status()), "Forbidden");
    assert_eq!(reason(Cause::ModelBusy.status()), "Conflict");
}

#[test]
fn a_reply_declares_its_length_in_bytes_and_closes() {
    let text = reply(200, Some("application/json"), &Vec::new(), "{}", false);
    assert_eq!(
        text,
        "HTTP/1.1 200 OK\r\nContent-Type: application/json\r\nContent-Length: 2\r\n\
         Access-Control-Allow-Origin: *\r\nConnection: close\r\n\r\n{}"
    );
    assert_eq!(byte_len("é€𝄞"), 9, "two, three and four bytes");
    let head = json_reply("{\"a\":1}", true);
    assert!(head.ends_with("Content-Length: 7\r\nAccess-Control-Allow-Origin: *\r\nConnection: close\r\n\r\n"), "{head}");
}

#[test]
fn a_contended_refusal_says_when_to_ask_again() {
    let refusal = Refusal::new(Cause::RoomContended, "held".to_owned());
    let text = refusal_reply(&refusal);
    assert!(text.starts_with("HTTP/1.1 503 Service Unavailable\r\n"), "{text}");
    assert!(text.contains("\r\nRetry-After: 1\r\n"), "{text}");
    assert!(text.ends_with(
        "\r\n\r\n{\"error\":{\"message\":\"held\",\"type\":\"server_error\",\"code\":\"room_contended\"}}"
    ));

    let wrong = refusal_reply(&Refusal::new(Cause::MethodNotAllowed("GET, POST"), "no".to_owned()));
    assert!(wrong.contains("\r\nAllow: GET, POST\r\n"), "{wrong}");
    assert!(!wrong.contains("Retry-After"), "{wrong}");
}

#[test]
fn a_preflight_is_answered_with_what_the_endpoint_accepts() {
    assert_eq!(
        preflight_reply("GET, POST"),
        "HTTP/1.1 204 No Content\r\nContent-Length: 0\r\nAllow: GET, POST\r\n\
         Access-Control-Allow-Methods: GET, POST\r\nAccess-Control-Allow-Headers: *\r\n\
         Access-Control-Max-Age: 86400\r\nAccess-Control-Allow-Origin: *\r\nConnection: close\r\n\r\n"
    );
}

#[test]
fn the_listing_names_every_entry_quoted_as_json() {
    let body = listing(&catalog(vec![entry("a\"b"), entry("c")]));
    assert_eq!(
        body,
        "{\"object\":\"list\",\"data\":[{\"id\":\"a\\\"b\",\"object\":\"model\",\"owned_by\":\"model-router\"},\
         {\"id\":\"c\",\"object\":\"model\",\"owned_by\":\"model-router\"}]}"
    );
}

#[test]
fn the_router_mode_listing_leaves_out_what_generates_nothing() {
    let mut embedder = entry("e");
    embedder.flags = vec![("embeddings".to_owned(), "true".to_owned())];
    let mut seeing = entry("v");
    seeing.projector_path = Some(RelativePath::new("p.gguf").expect("relative"));
    let body = catalogue(
        &catalog(vec![embedder, seeing, entry("t")]),
        &vec!["v".to_owned()],
        &vec![("v".to_owned(), Some(700))],
    );
    assert_eq!(
        body,
        "{\"object\":\"list\",\"data\":[\
         {\"id\":\"v\",\"object\":\"model\",\"owned_by\":\"model-router\",\"status\":{\"value\":\"loaded\",\"failed\":false},\
         \"source\":\"preset\",\"meta\":{\"n_ctx\":4096},\"architecture\":{\"input_modalities\":[\"text\",\"image\"]},\
         \"memory\":{\"declared_mib\":512,\"held_mib\":700}},\
         {\"id\":\"t\",\"object\":\"model\",\"owned_by\":\"model-router\",\"status\":{\"value\":\"unloaded\",\"failed\":false},\
         \"source\":\"preset\",\"meta\":{\"n_ctx\":4096},\"architecture\":{\"input_modalities\":[\"text\"]},\
         \"memory\":{\"declared_mib\":512,\"held_mib\":null}}]}"
    );
}

#[test]
fn a_reload_says_what_it_added_removed_and_superseded() {
    let mut changed = entry("gemma3");
    changed.context_size = 8192;
    let previous = catalog(vec![entry("gemma3"), entry("old")]);
    let parsed = catalog(vec![changed, entry("qwen3-8b")]);
    let outcome = changes(&previous, &parsed, &vec!["gemma3".to_owned(), "old".to_owned()]);
    assert_eq!(
        outcome,
        Reloaded {
            added: vec!["qwen3-8b".to_owned()],
            removed: vec!["old".to_owned()],
            superseded: vec!["gemma3".to_owned(), "old".to_owned()],
        }
    );
    let same = changes(&previous, &previous, &vec!["gemma3".to_owned()]);
    assert!(same.added.is_empty() && same.removed.is_empty() && same.superseded.is_empty());

    let body = reload_reply(&Reloaded {
        added: vec!["qwen3-8b".to_owned()],
        removed: Vec::new(),
        superseded: vec!["gemma3".to_owned()],
    });
    assert_eq!(body, "{\"object\":\"reload\",\"added\":[\"qwen3-8b\"],\"removed\":[],\"superseded\":[\"gemma3\"]}");
}

#[test]
fn a_dropped_entry_keeps_its_slot_while_its_child_runs() {
    let parsed = catalog(vec![entry("gemma3")]);
    let slots = vec![("gemma3".to_owned(), false), ("running".to_owned(), true), ("idle".to_owned(), false)];
    assert_eq!(keep_slots(&slots, &parsed), ["gemma3", "running"]);
}

#[test]
fn a_refusal_names_what_the_catalog_carries() {
    assert_eq!(known(&catalog(vec![entry("gemma3"), entry("qwen3")])), "gemma3, qwen3");
}

#[test]
fn the_build_is_said_with_what_the_server_does() {
    assert_eq!(
        properties("0.1.0", "3f2c9a1b7e40"),
        "{\"models_autoload\":true,\"build\":{\"version\":\"0.1.0\",\"commit\":\"3f2c9a1b7e40\"}}"
    );
}

#[test]
fn room_there_for_the_taking_is_not_taken_ahead_of_the_line() {
    let ids = vec!["old".to_owned()];
    assert_eq!(look("new", Decision::Fits, false), Look::Made);
    assert_eq!(look("new", Decision::Unload(ids.clone()), true), Look::Unload(ids.clone()));
    assert_eq!(
        look("new", Decision::Unload(ids.clone()), false),
        Look::Held("'new' is in line behind a request that asked for room first".to_owned())
    );
    assert_eq!(look("new", Decision::Refuse("too big".to_owned()), true), Look::Refused(Failure::Refused("too big".to_owned())));
    assert_eq!(unloading_line("new", &vec!["a".to_owned(), "b".to_owned()]), "new: unloading a, b to make room");
}

#[test]
fn a_wait_ends_in_a_start_a_refusal_or_another_look() {
    assert_eq!(
        before_look("m", 0, 1, true, None),
        Some(Next::Fail(Failure::Contended(
            "the catalog was reloaded while 'm' waited for room; ask again, and it is decided under the catalog now serving"
                .to_owned()
        )))
    );
    assert_eq!(before_look("m", 1, 1, true, None), Some(Next::Running));
    assert_eq!(before_look("m", 1, 1, false, None), None);
    assert_eq!(after_look("m", Ok(Room::Made), true, 60), Next::Start);
    assert_eq!(after_look("m", Ok(Room::Held("held".to_owned())), false, 60), Next::Wait);
    assert_eq!(
        after_look("m", Ok(Room::Held("held".to_owned())), true, 60),
        Next::Fail(Failure::Contended("held; 'm' waited 60s and the room did not free up".to_owned()))
    );
    assert_eq!(
        refused("m", "held", 0),
        Failure::Contended(
            "held; this may succeed on a retry, or set MAESTRO_ADMISSION_WAIT_SECONDS to wait for the room".to_owned()
        )
    );
    assert_eq!(
        dropped_before_admitted("m"),
        Failure::Contended(
            "the catalog was reloaded before 'm' was admitted; ask again, and it is decided under the catalog now serving"
                .to_owned()
        )
    );
}

#[test]
fn a_refusal_for_an_unknown_model_lists_what_the_catalog_carries() {
    let refusal = maestro_model_router::proxy::answers::no_such_model("nowhere", &catalog(vec![entry("gemma3")]));
    assert_eq!(
        refusal.envelope(),
        "{\"error\":{\"message\":\"no model called 'nowhere'; this catalog carries: gemma3\",\
         \"type\":\"invalid_request_error\",\"code\":\"model_not_found\"}}"
    );
}

#[test]
fn an_unload_of_a_busy_model_is_refused_and_a_done_one_succeeds() {
    let refusal = maestro_model_router::proxy::answers::busy("gemma3");
    assert_eq!(refusal.cause(), Cause::ModelBusy);
    assert_eq!(refusal.message(), "'gemma3' is answering a request; unload it once that ends");
    assert_eq!(refusal.cause().status(), 409);
    assert_eq!(maestro_model_router::proxy::answers::done(), "{\"success\":true}");
    let unread = maestro_model_router::proxy::answers::not_reloaded("cannot read c.toml");
    assert_eq!(unread.cause().status(), 400);
    assert_eq!(unread.message(), "the catalog was not reloaded and the one already serving is untouched: cannot read c.toml");
}

#[test]
fn addresses_are_read_between_commas_and_a_wildcard_is_refused() {
    assert_eq!(address_pieces(" 127.0.0.1:8080, ,192.168.140.1:8081,"), ["127.0.0.1:8080", "192.168.140.1:8081"]);
    assert_eq!(
        refused_to_bind(&Vec::new()),
        Some(Failure::Unavailable("refusing to serve: no address to listen on was given".to_owned()))
    );
    assert_eq!(refused_to_bind(&vec![("127.0.0.1:8080".to_owned(), false)]), None);
    let refused = refused_to_bind(&vec![("127.0.0.1:8080".to_owned(), false), ("0.0.0.0:80".to_owned(), true)]);
    assert!(matches!(refused, Some(Failure::Unavailable(m)) if m.starts_with("refusing to bind 0.0.0.0:80: a wildcard")));
}

#[test]
fn a_free_turn_is_taken_at_once_and_there_is_never_none() {
    let mut permits = Permits::new(2);
    assert!(permits.may_take());
    permits.take();
    assert!(permits.may_take());
    permits.take();
    assert!(!permits.may_take(), "both turns are taken");
    permits.give();
    assert!(permits.may_take());
    assert!(Permits::new(0).may_take(), "never none");
}

#[test]
fn a_room_taken_first_and_a_failed_load_are_said() {
    assert_eq!(
        maestro_model_router::proxy::room::reached_first("new", "old"),
        "'new' needs room held by 'old', which a request reached first"
    );
    assert_eq!(
        maestro_model_router::proxy::start::not_loaded(&entry("m"), &Failure::NotReady("no answer in 30 s".to_owned())),
        "m: not loaded: no answer in 30 s"
    );
    assert_eq!(maestro_model_router::proxy::start::loading(&entry("m")), "m: loading, estimated at 512 MiB");
}

/// Slots for `gemma3` alone, as a reload that dropped `qwen3` leaves them
/// for a request still holding the catalog from before it.
fn slots() -> SlotTable<u32> {
    let mut table = SlotTable::for_catalog(&catalog(vec![entry("gemma3"), entry("qwen3")]));
    table.resync(&catalog(vec![entry("gemma3")]));
    table
}

#[test]
fn a_reader_holding_an_older_catalog_finds_a_dropped_slot_empty() {
    let mut table = slots();
    let older = catalog(vec![entry("gemma3"), entry("qwen3")]);
    assert!(table.loaded(&older).is_empty(), "nothing is loaded");
    assert!(!table.has_slot("qwen3"));
    assert_eq!(table.take("qwen3"), None, "and nothing is left running");
}

#[test]
fn an_admission_for_a_dropped_slot_is_refused_as_contended() {
    let mut table = slots();
    assert_eq!(table.put("qwen3", 7), Err(7), "there is no slot to load into");
    let refused = dropped_before_admitted("qwen3");
    assert!(matches!(&refused, Failure::Contended(message) if message.contains("reloaded")), "{refused:?}");
}

#[test]
fn a_slot_that_holds_a_child_outlives_its_entry() {
    let mut table: SlotTable<u32> = SlotTable::for_catalog(&catalog(vec![entry("a"), entry("b")]));
    assert_eq!(table.put("b", 2), Ok(None));
    table.resync(&catalog(vec![entry("c")]));
    assert!(!table.has_slot("a"), "an empty slot of a dropped entry goes");
    assert_eq!(table.held("b"), Some(&2), "one holding a child stays");
    assert!(table.has_slot("c"));
    assert_eq!(table.loaded(&catalog(vec![entry("a"), entry("b"), entry("c")])), ["b"]);
    assert_eq!(table.clear(), [2]);
    assert_eq!(table.take("b"), None);
}

#[test]
fn a_scrape_reports_every_entry_loaded_or_not_and_the_budget_only_when_there_is_one() {
    let catalog = catalog(vec![entry("a"), entry("b")]);
    let loaded = vec!["a".to_owned()];
    let held = vec![("a".to_owned(), Some(700u64)), ("b".to_owned(), None)];
    let text = exposition(&catalog, &loaded, &held, 2, Some(24000), "1.2.3", "abc");
    assert!(text.contains("model_router_model_loaded{model=\"a\"} 1\n"), "{text}");
    assert!(text.contains("model_router_model_loaded{model=\"b\"} 0\n"), "{text}");
    assert!(text.contains("model_router_model_held_mib{model=\"a\"} 700\n"), "{text}");
    assert!(!text.contains("model_router_model_held_mib{model=\"b\"}"), "{text}");
    assert!(text.contains("model_router_memory_budget_mib 24000\n"), "{text}");
    assert!(text.contains("model_router_requests_waiting 2\n"), "{text}");
    assert!(text.contains("model_router_build_info{version=\"1.2.3\",commit=\"abc\"} 1\n"), "{text}");

    let unbounded = exposition(&catalog, &loaded, &held, 0, None, "1.2.3", "abc");
    assert!(!unbounded.contains("model_router_memory_budget_mib"), "{unbounded}");
}

fn catalog_text(ids: &[(&str, u32)]) -> String {
    let mut text = "version = 1\n[defaults]\ncontext_size = 4096\nmemory_estimate_mib = 512\n".to_owned();
    for (id, context) in ids {
        text.push_str(&format!("[models.{id}]\npath = \"{id}.gguf\"\ncontext_size = {context}\n"));
    }
    text
}

#[test]
fn a_reload_serves_the_new_catalog_names_its_changes_and_stops_no_child() {
    let first = Catalog::parse(&catalog_text(&[("a", 4096), ("b", 4096), ("c", 4096)])).expect("catalog");
    let mut shared: Shared<u32> = Shared::new(first);
    assert_eq!(shared.reloads(), 0);
    assert!(shared.put("b", 7).is_ok());
    assert!(shared.put("c", 8).is_ok());
    assert_eq!(shared.loaded(), ["b", "c"]);

    let changed = shared
        .reload(&catalog_text(&[("a", 4096), ("c", 8192), ("d", 4096)]))
        .expect("a usable catalog");
    assert_eq!(changed.added, ["d"]);
    assert_eq!(changed.removed, ["b"]);
    assert_eq!(changed.superseded, ["b", "c"], "b dropped and c redefined under a running child");
    assert_eq!(shared.reloads(), 1);
    let ids: Vec<&str> = shared.catalog().entries.iter().map(|e| e.id.as_str()).collect();
    assert_eq!(ids, ["a", "c", "d"]);
    assert_eq!(shared.held("b"), Some(&7), "a dropped entry's child keeps its slot");
    assert_eq!(shared.held("c"), Some(&8));
    assert_eq!(shared.loaded(), ["c"], "the new catalog does not carry b");
}

#[test]
fn a_reload_of_text_that_is_no_catalog_changes_nothing() {
    let first = Catalog::parse(&catalog_text(&[("a", 4096)])).expect("catalog");
    let mut shared: Shared<u32> = Shared::new(first.clone());
    assert!(shared.put("a", 1).is_ok());
    let refused = shared.reload("version = 1\n[models.a\n").expect_err("no catalog");
    assert_eq!(refused.problems().len(), 1);
    assert!(shared.reload("version = 1\n[models.x]\n").is_err(), "an entry without a path");
    assert_eq!(shared.catalog(), &first);
    assert_eq!(shared.reloads(), 0);
    assert_eq!(shared.held("a"), Some(&1));
}
