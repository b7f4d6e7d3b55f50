use maestro_model_router::memory::{DeviceMemory, Fixed, Measurement, Probe};

#[test]
fn the_largest_side_is_the_measurement_and_one_unknown_side_does_not_hide_the_other() {
    let both = Measurement {
        resident_mib: Some(4600),
        device_mib: Some(725),
    };
    assert_eq!(both.largest_mib(), Some(4600));

    let device_only = Measurement {
        resident_mib: None,
        device_mib: Some(725),
    };
    assert_eq!(device_only.largest_mib(), Some(725));
    assert_eq!(Measurement::unknown().largest_mib(), None);
}

#[test]
fn a_fixed_probe_answers_with_what_it_was_built_with_for_any_pid() {
    let probe = Probe::Fixed(Fixed {
        device: Some(DeviceMemory {
            total_mib: 4096,
            used_mib: 1024,
        }),
        system_total_mib: Some(16384),
        measurement: Measurement {
            resident_mib: Some(700),
            device_mib: Some(300),
        },
    });

    assert_eq!(probe.device().map(|device| device.free_mib()), Some(3072));
    assert_eq!(probe.system_total_mib(), Some(16384));
    assert_eq!(probe.measure(1).largest_mib(), Some(700));
    assert_eq!(probe.measure(99_999).largest_mib(), Some(700));
}

#[test]
fn a_probe_that_knows_nothing_reports_nothing() {
    let probe = Probe::none();
    assert_eq!(probe.device(), None);
    assert_eq!(probe.system_total_mib(), None);
    assert_eq!(probe.measure(1), Measurement::unknown());
}

#[test]
fn free_memory_is_never_below_nothing() {
    let device = DeviceMemory { total_mib: 100, used_mib: 300 };
    assert_eq!(device.free_mib(), 0);
}
