use email_search::paths::FilePath;
use email_search::report::{announce, copy_report, settle, summarize, Event, FileResult, Summary,
    EXIT_PARTIAL_FAILURE, EXIT_SETUP_FAILURE, EXIT_SUCCESS};
use email_search::search::{Decision, MatchRecord};

fn copy_decision() -> Decision {
    let source = FilePath::from_components(vec!["root".to_string(), "m.eml".to_string()]);
    let destination = FilePath::from_components(vec!["D".to_string(), "m.eml".to_string()]);
    Decision::Copy(MatchRecord { source, destination })
}

#[test]
fn decisions_are_announced_by_their_events() {
    let shown = "root/m.eml";
    let path = shown.to_string();
    assert_eq!(announce(&Decision::Skip, shown), None);
    assert_eq!(announce(&Decision::Unreadable, shown), Some(Event::Unreadable { path: path.clone() }));
    assert_eq!(announce(&Decision::NotText, shown), Some(Event::NotText { path: path.clone() }));
    assert_eq!(announce(&Decision::NoMatch, shown), Some(Event::NoMatch { path: path.clone() }));
    assert_eq!(announce(&copy_decision(), shown), Some(Event::Found { path: path.clone() }));
    assert_eq!(
        announce(&Decision::OutsideRoot, shown),
        Some(Event::CopyFailed { path, error: "the path does not lie under the source directory".to_string() })
    );
}

#[test]
fn decisions_without_a_copy_settle_the_result() {
    assert_eq!(settle(&Decision::Skip), None);
    assert_eq!(settle(&Decision::Unreadable), Some(FileResult::ScanFailed));
    assert_eq!(settle(&Decision::NotText), Some(FileResult::ScanFailed));
    assert_eq!(settle(&Decision::NoMatch), Some(FileResult::NoMatch));
    assert_eq!(settle(&Decision::OutsideRoot), Some(FileResult::CopyFailed));
    assert_eq!(settle(&copy_decision()), None);
}

#[test]
fn a_copy_is_reported_by_how_it_ended() {
    assert_eq!(
        copy_report("root/m.eml", "D/m.eml", None),
        (Event::Copied { destination: "D/m.eml".to_string() }, FileResult::Copied)
    );
    assert_eq!(
        copy_report("root/m.eml", "D/m.eml", Some("permission denied")),
        (
            Event::CopyFailed { path: "root/m.eml".to_string(), error: "permission denied".to_string() },
            FileResult::CopyFailed
        )
    );
}

#[test]
fn console_lines_are_worded_per_event() {
    let path = "C:\\mail\\a\\msg1.eml".to_string();
    assert_eq!(Event::Started.console_line(), "Started the search...");
    assert_eq!(
        Event::Found { path: path.clone() }.console_line(),
        "Found matching email at C:\\mail\\a\\msg1.eml"
    );
    assert_eq!(
        Event::NoMatch { path: path.clone() }.console_line(),
        "No matching email found at C:\\mail\\a\\msg1.eml"
    );
    assert_eq!(Event::Unreadable { path: path.clone() }.console_line(), "Could not read C:\\mail\\a\\msg1.eml");
    assert_eq!(
        Event::NotText { path: path.clone() }.console_line(),
        "Could not decode as text C:\\mail\\a\\msg1.eml"
    );
    assert_eq!(
        Event::Copied { destination: "D:\\out\\a\\msg1.eml".to_string() }.console_line(),
        "Successfully copied to D:\\out\\a\\msg1.eml"
    );
    assert_eq!(
        Event::CopyFailed { path, error: "disk full".to_string() }.console_line(),
        "Failed to copy C:\\mail\\a\\msg1.eml: disk full"
    );
    assert_eq!(
        Event::Finished { elapsed: "1.5s".to_string() }.console_line(),
        "Search and copy took 1.5s to complete"
    );
}

#[test]
fn log_messages_follow_the_console_but_for_no_match() {
    let path = "a/msg2.eml".to_string();
    assert_eq!(Event::NoMatch { path: path.clone() }.log_message(), "No matching keyword at a/msg2.eml");
    let events = [
        Event::Started,
        Event::Found { path: path.clone() },
        Event::Unreadable { path: path.clone() },
        Event::NotText { path: path.clone() },
        Event::Copied { destination: path.clone() },
        Event::CopyFailed { path: path.clone(), error: "denied".to_string() },
        Event::Finished { elapsed: "2ms".to_string() },
    ];
    for event in events {
        assert_eq!(event.log_message(), event.console_line());
    }
}

#[test]
fn log_lines_begin_with_the_time() {
    let event = Event::Found { path: "a/msg1.eml".to_string() };
    assert_eq!(
        event.log_line("SystemTime { tv_sec: 1, tv_nsec: 2 }"),
        "SystemTime { tv_sec: 1, tv_nsec: 2 } Found matching email at a/msg1.eml"
    );
    assert_eq!(Event::Started.log_line(""), " Started the search...");
}

#[test]
fn log_tells_no_match_scan_failure_and_copy_failure_apart() {
    let path = "x.eml".to_string();
    let no_match = Event::NoMatch { path: path.clone() }.log_message();
    let unreadable = Event::Unreadable { path: path.clone() }.log_message();
    let not_text = Event::NotText { path: path.clone() }.log_message();
    let copy_failed = Event::CopyFailed { path, error: String::new() }.log_message();
    assert_ne!(no_match, unreadable);
    assert_ne!(no_match, not_text);
    assert_ne!(no_match, copy_failed);
    assert_ne!(unreadable, copy_failed);
    assert_ne!(not_text, copy_failed);
    assert_ne!(unreadable, not_text);
}

#[test]
fn summary_counts_each_kind_of_result() {
    let results = vec![
        FileResult::Copied,
        FileResult::NoMatch,
        FileResult::ScanFailed,
        FileResult::Copied,
        FileResult::CopyFailed,
        FileResult::NoMatch,
        FileResult::NoMatch,
    ];
    assert_eq!(
        summarize(&results),
        Summary { candidates: 7, matches: 3, copied: 2, copy_failures: 1, scan_failures: 1 }
    );
}

#[test]
fn summary_line_writes_the_counts_in_decimal() {
    let summary = Summary { candidates: 1234, matches: 120, copied: 109, copy_failures: 11, scan_failures: 7 };
    assert_eq!(
        summary.line(),
        "Found 120 matching emails among 1234 candidates: 109 copied, 11 not copied, 7 not scanned"
    );
    let large = Summary { candidates: usize::MAX, matches: 10, copied: 9, copy_failures: 1, scan_failures: 0 };
    assert_eq!(
        large.line(),
        format!("Found 10 matching emails among {} candidates: 9 copied, 1 not copied, 0 not scanned", usize::MAX)
    );
}

#[test]
fn the_summary_is_reported_like_any_event() {
    let summary = summarize(&vec![FileResult::Copied, FileResult::NoMatch]);
    let event = Event::Summarized { summary };
    assert_eq!(
        event.console_line(),
        "Found 1 matching emails among 2 candidates: 1 copied, 0 not copied, 0 not scanned"
    );
    assert_eq!(event.log_message(), event.console_line());
    assert_eq!(
        event.log_line("now"),
        "now Found 1 matching emails among 2 candidates: 1 copied, 0 not copied, 0 not scanned"
    );
}

#[test]
fn exit_code_tells_of_failed_copies() {
    assert_eq!(summarize(&Vec::new()).exit_code(), EXIT_SUCCESS);
    assert_eq!(summarize(&vec![FileResult::Copied, FileResult::ScanFailed]).exit_code(), EXIT_SUCCESS);
    assert_eq!(summarize(&vec![FileResult::Copied, FileResult::CopyFailed]).exit_code(), EXIT_PARTIAL_FAILURE);
    assert_eq!(EXIT_SUCCESS, 0);
    assert_eq!(EXIT_SETUP_FAILURE, 1);
    assert_eq!(EXIT_PARTIAL_FAILURE, 2);
}
