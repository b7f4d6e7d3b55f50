use maestro_model_router::launch::output::{last_words, line_end_at, LastLines, LONGEST_LINE};
use maestro_model_router::stub::{before_bind, ready_now, Beginning};
use maestro_model_router::memory::reading::system_total_from;
use maestro_model_router::ending::{children, on_ending, stopped_line, Ending, Then};
use maestro_model_router::launch::binary::{binary_for, located, runtime_named};
use maestro_model_router::launch::probe::status_of_line;
use maestro_model_router::launch::root::models_root_from;
use maestro_model_router::launch::Failure;
use maestro_model_router::catalog::{Entry, RelativePath, Residency};
use maestro_model_router::settings::{
    admission_wait, budget_line, ceiling, idle_line, idle_window, reservation_line, wait_line, whole_setting,
};

#[test]
fn a_device_sets_the_budget_less_a_margin() {
    let found = ceiling(None, Some(32607), Some(64000)).expect("a ceiling");
    assert_eq!(found.limit_mib, Some(29347));
    assert_eq!(
        budget_line(found.limit_mib, &found.source),
        "memory budget: 29347 MiB, derived from the device (32607 MiB total less a 3260 MiB margin)"
    );
    let small = ceiling(None, Some(8000), None).expect("a ceiling");
    assert_eq!(small.limit_mib, Some(6976), "never less than 1024 MiB of margin");
}

#[test]
fn the_variable_sets_the_budget_over_the_machine() {
    let found = ceiling(Some("25000"), Some(32607), None).expect("a ceiling");
    assert_eq!(found.limit_mib, Some(25000));
    assert_eq!(budget_line(found.limit_mib, &found.source), "memory budget: 25000 MiB, so models are unloaded to make room");
    assert_eq!(ceiling(Some(""), None, None).expect("unset").limit_mib, None, "empty is unset");
}

#[test]
fn system_memory_sets_four_fifths() {
    assert_eq!(ceiling(None, None, Some(10000)).expect("a ceiling").limit_mib, Some(8000));
}

#[test]
fn a_budget_that_is_not_a_whole_number_is_refused() {
    assert_eq!(
        ceiling(Some("lots"), None, None),
        Err("MAESTRO_MEMORY_BUDGET_MIB must be a whole number, but is 'lots'".to_owned())
    );
    assert!(whole_setting("X", Some("-1"), 100).is_err());
    assert_eq!(whole_setting("X", Some("+7"), 100), Ok(Some(7)));
}

#[test]
fn the_startup_lines_say_what_was_found() {
    assert_eq!(reservation_line(Some(25000), 4096), "residents reserve 4096 MiB of 25000 MiB, leaving 20904 MiB for everything else");
    assert_eq!(idle_line(Some(3600)), "idle window: 3600 seconds, so an unused on-demand model is unloaded after that long");
    assert_eq!(idle_window(Some("0")), Ok(None), "zero is no window");
    assert_eq!(idle_window(Some("3600")), Ok(Some(3600)));
    assert_eq!(admission_wait(None), Ok(60), "a minute unless set");
    assert_eq!(admission_wait(Some("0")), Ok(0));
    assert!(wait_line(0).contains("refused at once"));
}

#[test]
fn an_empty_root_variable_is_unset() {
    assert_eq!(models_root_from(Some("/srv/models".to_owned()), None), Ok("/srv/models".to_owned()));
    assert_eq!(models_root_from(Some(String::new()), Some("/home/u".to_owned())), Ok("/home/u/models".to_owned()));
    assert_eq!(models_root_from(None, Some("/home/u/".to_owned())), Ok("/home/u/models".to_owned()));
    assert!(matches!(models_root_from(None, None), Err(Failure::Unavailable(_))));
}

#[test]
fn a_named_runtime_is_looked_for_beside_the_server() {
    assert_eq!(runtime_named("rocm"), "llama-server-rocm");
    let mut entry = Entry {
        id: "big".to_owned(),
        path: RelativePath::new("m.gguf").expect("relative"),
        draft_path: None,
        projector_path: None,
        context_size: 4096,
        residency: Residency::OnDemand,
        memory_estimate_mib: 512,
        reasoning_format: None,
        reasoning_effort: None,
        startup_timeout_seconds: 300,
        runtime: None,
        flags: Vec::new(),
    };
    assert_eq!(binary_for("/bin/llama-server", &entry, None), Ok("/bin/llama-server".to_owned()));
    entry.runtime = Some("rocm".to_owned());
    assert_eq!(
        binary_for("/bin/llama-server", &entry, None),
        Err(Failure::Unavailable(
            "entry 'big' needs the 'rocm' runtime, and nothing named 'llama-server-rocm' is on the search path".to_owned()
        ))
    );
    assert_eq!(
        located(Some("/nope"), false, None),
        Err(Failure::Unavailable("the configured server binary is not there: '/nope'".to_owned()))
    );
    assert_eq!(located(None, false, Some("/usr/bin/llama-server".to_owned())), Ok("/usr/bin/llama-server".to_owned()));
}

#[test]
fn the_status_is_the_second_word_of_the_reply_line() {
    assert_eq!(status_of_line("HTTP/1.1 503 Service Unavailable\r\n"), Some(503));
    assert_eq!(status_of_line("HTTP/1.1  200   OK"), Some(200));
    assert_eq!(status_of_line("garbage"), None);
    assert_eq!(status_of_line("HTTP/1.1 99999 Huge"), None);
}

#[test]
fn a_second_signal_gives_up_and_a_first_starts_the_stop() {
    assert_eq!(on_ending(false, Ending::Signalled), (true, Then::StartStopping));
    assert_eq!(
        on_ending(true, Ending::Signalled),
        (true, Then::GiveUp("signalled again: exiting without waiting for the children".to_owned()))
    );
    assert_eq!(on_ending(true, Ending::Stopped), (true, Then::Return(Ending::Stopped)));
    assert_eq!(on_ending(false, Ending::Served), (false, Then::Return(Ending::Served)));
    assert_eq!(children(1), "1 child");
    assert_eq!(children(0), "0 children");
    assert_eq!(stopped_line(2), "stopping: ended 2 children");
}

#[test]
fn the_system_total_is_read_from_its_line_in_mebibytes() {
    let meminfo = "MemFree:         1000 kB\nMemTotal:       32768000 kB\nMemAvailable: 5 kB\n";
    assert_eq!(system_total_from(meminfo), Some(32000));
    assert_eq!(system_total_from("nothing here\n"), None);
}

#[test]
fn the_last_five_lines_are_kept_without_their_endings() {
    let mut last = LastLines::new();
    for n in 1..=7 {
        last.passed_on(&format!("line {n}\r\n"));
    }
    assert_eq!(last.last(), &["line 3", "line 4", "line 5", "line 6", "line 7"]);
    assert_eq!(last_words(last.last()), "; it said last:\n  line 3\n  line 4\n  line 5\n  line 6\n  line 7");
    assert_eq!(last_words(&Vec::new()), "", "a child that said nothing is quoted as nothing");
}

#[test]
fn the_last_lines_are_kept_and_the_oldest_are_let_go() {
    let mut said = LastLines::new();
    let output = "line 1\nline 2\nline 3\nline 4\nline 5\nline 6\nline 7\n";
    said.take_in(output.as_bytes());
    assert_eq!(said.last(), &["line 3", "line 4", "line 5", "line 6", "line 7"], "the five a failure quotes, oldest first");
}

#[test]
fn a_line_without_an_end_is_split_rather_than_held() {
    let mut said = LastLines::new();
    let long = "x".repeat(5000);
    said.take_in(long.as_bytes());
    let last = said.last();
    assert_eq!(last.len(), 2, "split at the longest line: {last:?}");
    assert_eq!(last[0].len(), 4096);
    assert_eq!(last[1].len(), 904);
}

#[test]
fn output_that_is_not_text_is_kept_readable() {
    let mut said = LastLines::new();
    said.take_in(&[b'o', b'k', 0xff, b'\n']);
    assert_eq!(said.last(), &["ok\u{fffd}"]);
}

#[test]
fn a_line_ends_just_past_its_newline_or_at_the_longest_line() {
    assert_eq!(LONGEST_LINE, 4096);
    assert_eq!(line_end_at(b"ab\ncd", 0), 3);
    assert_eq!(line_end_at(b"ab\ncd", 3), 5, "the tail without an end");
    assert_eq!(line_end_at(&[b'x'; 9000], 4096), 8192);
    let mut said = LastLines::new();
    said.take_in(b"progress 1\rprogress 2\r\n");
    assert_eq!(said.last(), &["progress 1\rprogress 2"], "only the ending is trimmed");
}

#[test]
fn a_stand_in_that_names_a_marker_fails_its_first_run_only() {
    assert_eq!(before_bind(Some(false), false), Beginning::LeaveMarkerAndFail);
    assert_eq!(before_bind(Some(true), true), Beginning::Serve, "a marker named decides alone");
    assert_eq!(before_bind(None, true), Beginning::Fail);
    assert_eq!(before_bind(None, false), Beginning::Serve);
    assert!(ready_now(0, 0), "no wait asked for");
    assert!(!ready_now(10, 60000), "a minute's load not yet over");
}
