use maestro_model_router::catalog::{Entry, RelativePath, Residency};
use maestro_model_router::memory::Measurement;
use maestro_model_router::proxy::start::{gibibytes, on_the_device, ready};
use std::time::Duration;

fn entry() -> Entry {
    Entry {
        id: "qwen3-06b".to_owned(),
        path: RelativePath::new("somewhere/model.gguf").expect("relative"),
        draft_path: None,
        projector_path: None,
        context_size: 4096,
        residency: Residency::OnDemand,
        memory_estimate_mib: 1024,
        reasoning_format: None,
        reasoning_effort: None,
        startup_timeout_seconds: 30,
        runtime: None,
        flags: Vec::new(),
    }
}

#[test]
fn the_ready_line_carries_both_measurements_and_what_the_catalog_said() {
    let line = ready(
        &entry(),
        &format!("{:.1}", Duration::from_millis(5_440).as_secs_f64()),
        &Measurement {
            resident_mib: Some(4608),
            device_mib: Some(717),
        },
    );

    assert_eq!(
        line,
        "qwen3-06b: ready in 5.4 s, measured 4.5 GiB resident and 0.7 GiB \
         on the device (catalog said 1024 MiB)"
    );
}

const UNREAD_ON_THE_DEVICE: Measurement = Measurement {
    resident_mib: Some(900),
    device_mib: None,
};

#[test]
fn a_device_that_cannot_say_per_process_is_read_by_how_far_its_free_memory_fell() {
    assert_eq!(
        on_the_device(UNREAD_ON_THE_DEVICE, Some(31_000), Some(2_000)),
        Measurement {
            resident_mib: Some(900),
            device_mib: Some(29_000),
        },
    );
}

#[test]
fn what_the_device_says_per_process_is_kept_over_what_its_free_memory_did() {
    let per_process = Measurement {
        resident_mib: Some(900),
        device_mib: Some(28_000),
    };
    assert_eq!(
        on_the_device(per_process, Some(31_000), Some(2_000)),
        per_process,
        "a figure that is the child's alone beats one that is the card's"
    );
}

#[test]
fn free_memory_that_did_not_fall_or_could_not_be_read_says_nothing() {
    for (before, after) in [
        (Some(2_000), Some(2_000)),
        (Some(2_000), Some(3_000)),
        (None, Some(2_000)),
        (Some(2_000), None),
    ] {
        assert_eq!(
            on_the_device(UNREAD_ON_THE_DEVICE, before, after),
            UNREAD_ON_THE_DEVICE,
            "free memory of {before:?} then {after:?} says nothing about \
             what the child took"
        );
    }
}

#[test]
fn a_side_that_could_not_be_read_says_so_rather_than_saying_zero() {
    let line = ready(&entry(), &format!("{:.1}", Duration::from_secs(1).as_secs_f64()), &Measurement::unknown());

    assert!(
        line.contains("nothing readable resident and nothing readable on the device"),
        "an unreadable figure is named as such: {line}"
    );
}

#[test]
fn a_gibibyte_figure_is_truncated_to_a_tenth() {
    assert_eq!(gibibytes(Some(1023)), "0.9 GiB");
    assert_eq!(gibibytes(Some(10_240)), "10.0 GiB");
    assert_eq!(gibibytes(None), "nothing readable");
}

#[test]
fn a_location_must_stay_inside_the_models_root() {
    assert!(RelativePath::new("a/b.gguf").is_ok());
    assert!(RelativePath::new("/abs/b.gguf").is_err());
    assert!(RelativePath::new("a/../../b.gguf").is_err());
    assert!(RelativePath::new("C:/b.gguf").is_err());
    assert!(RelativePath::new("").is_err());
    assert!(RelativePath::new("a/..b.gguf").is_ok());
}

#[test]
fn the_time_a_load_took_is_said_as_the_caller_writes_it() {
    let took = format!("{:.1}", Duration::from_millis(1_150).as_secs_f64());
    let line = ready(&entry(), &took, &Measurement::unknown());
    assert!(line.starts_with("qwen3-06b: ready in 1.1 s, measured"), "{line}");
}
