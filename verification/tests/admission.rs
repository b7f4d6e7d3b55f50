use maestro_model_router::admission::{Budget, Decision, Loaded, Wanted};
use maestro_model_router::catalog::Residency;

fn loaded(id: &str, mib: u64, residency: Residency, busy: bool, idle_secs: u64) -> Loaded {
    Loaded::new(id.to_owned(), mib, residency, busy, idle_secs)
}

fn on_demand(id: &str, mib: u64, idle_secs: u64) -> Loaded {
    loaded(id, mib, Residency::OnDemand, false, idle_secs)
}

fn wanted(id: &str, mib: u64) -> Wanted {
    Wanted::new(id.to_owned(), mib, true)
}

#[test]
fn an_idle_guest_goes_before_any_other_model_the_coldest_guest_first() {
    let budget = Budget::new(Some(4_096));
    let held = [
        on_demand("warm-guest", 500, 1),
        on_demand("chat", 2_000, 30),
        on_demand("cold-guest", 500, 10),
    ];
    let guests = ["warm-guest".to_owned(), "cold-guest".to_owned()];

    assert_eq!(
        budget.admit_with_guests(&held, &guests, &wanted("other-chat", 1_500), None),
        Decision::Unload(vec!["cold-guest".to_owned()]),
        "a model loaded into free room gives its room back before any \
         other, and the coldest of them goes first"
    );
}

#[test]
fn a_busy_guest_is_never_unloaded_so_the_idle_model_goes_instead() {
    let budget = Budget::new(Some(10_000));
    let held = [
        loaded("searching", 6_000, Residency::OnDemand, true, 100),
        on_demand("idle", 2_000, 1),
    ];

    assert_eq!(
        budget.admit_with_guests(
            &held,
            &["searching".to_owned()],
            &wanted("wanted", 3_000),
            None
        ),
        Decision::Unload(vec!["idle".to_owned()]),
        "a model being read from is never a candidate, guest or not"
    );
}

#[test]
fn no_budget_never_unloads() {
    let budget = Budget::new(None);
    let held = [on_demand("a", 90_000, 5)];
    assert_eq!(budget.decide(&held, &wanted("b", 90_000), Some(0)), Decision::Fits);
}

#[test]
fn a_model_that_fits_unloads_nothing() {
    let budget = Budget::new(Some(4_096));
    let held = [on_demand("a", 1_000, 5)];
    assert_eq!(budget.decide(&held, &wanted("b", 3_096), None), Decision::Fits);
}

#[test]
fn the_coldest_idle_models_go_first_and_only_as_many_as_needed() {
    let budget = Budget::new(Some(6_000));
    let held = [
        on_demand("warm", 2_000, 1),
        on_demand("cold", 2_000, 50),
        on_demand("colder", 1_000, 90),
    ];
    // 5000 held and 3000 wanted: 2000 has to go.
    assert_eq!(
        budget.decide(&held, &wanted("new", 3_000), None),
        Decision::Unload(vec!["colder".to_owned(), "cold".to_owned()])
    );
}

#[test]
fn a_resident_is_never_unloaded_and_too_little_else_is_refused() {
    let budget = Budget::new(Some(4_000));
    let held = [
        loaded("resident", 3_000, Residency::Resident, false, 500),
        on_demand("small", 500, 1),
    ];
    let decision = budget.decide(&held, &wanted("big", 2_000), None);
    assert_eq!(
        decision,
        Decision::Refuse(
            "'big' needs 1500 MiB more room, and unloading every on-demand model would free only 500 MiB"
                .to_owned()
        )
    );
}

#[test]
fn room_held_by_a_busy_model_waits_for_it() {
    let budget = Budget::new(Some(4_000));
    let held = [loaded("answering", 3_000, Residency::OnDemand, true, 0)];
    assert_eq!(
        budget.decide(&held, &wanted("next", 2_000), None),
        Decision::Blocked(
            "'next' needs 1000 MiB more room, and it is held by answering until the requests they are answering end"
                .to_owned()
        )
    );
}

#[test]
fn the_device_can_ask_for_more_to_go_than_the_ledger() {
    let budget = Budget::new(Some(10_000));
    let held = [on_demand("a", 2_000, 3), on_demand("b", 2_000, 9)];
    // The ledger has room; the device has 1000 free and 2500 are wanted.
    assert_eq!(
        budget.decide(&held, &wanted("c", 2_500), Some(1_000)),
        Decision::Unload(vec!["b".to_owned()])
    );
    // A model kept off the device is not held to the device's room.
    let off_device = Wanted::new("c".to_owned(), 2_500, false);
    assert_eq!(budget.decide(&held, &off_device, Some(1_000)), Decision::Fits);
}

#[test]
fn a_loaded_entry_counts_at_the_larger_of_its_estimate_and_its_measurement() {
    let entry = maestro_model_router::catalog::Entry {
        id: "qwen3-06b".to_owned(),
        path: maestro_model_router::catalog::RelativePath::new("m.gguf").expect("relative"),
        draft_path: None,
        projector_path: None,
        context_size: 4096,
        residency: Residency::OnDemand,
        memory_estimate_mib: 1024,
        reasoning_format: None,
        reasoning_effort: None,
        startup_timeout_seconds: 300,
        runtime: None,
        flags: vec![("n-gpu-layers".to_owned(), "0".to_owned())],
    };
    let measured = maestro_model_router::memory::Measurement { resident_mib: Some(4608), device_mib: Some(717) };
    let held = Loaded::of(&entry, true, 5, &measured);
    assert_eq!(held.mib, 4608);
    assert!(held.busy);
    assert_eq!(Loaded::of(&entry, false, 0, &maestro_model_router::memory::Measurement::unknown()).mib, 1024);
    let wanted = Wanted::of(&entry);
    assert_eq!(wanted.mib, 1024);
    assert!(!wanted.on_device, "every layer is kept on the processor");
}
