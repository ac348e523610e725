use logparser::reader::{classify, Event, EventReader};

fn reader_over(data: &str) -> EventReader {
    let lines: Vec<String> = data.lines().map(|l| l.to_string()).collect();
    EventReader::new(lines)
}

#[test]
fn should_parse_pre_execute_package() {
    let mut r = reader_over(r#"Pre-execute package Package"#);

    match r.next() {
        Some(Event::PackageStarted(e)) => assert_eq!(e.value, "Package"),
        e => panic!("Unexpected event: {:?}", e),
    }
}

#[test]
fn should_parse_container_name() {
    let mut r = reader_over(r#"Container Name       : Container"#);

    match r.next() {
        Some(Event::ContainerFinished(e)) => assert_eq!(e.value, "Container"),
        e => panic!("Unexpected event: {:?}", e),
    }
}

#[test]
fn should_parse_pre_execute_task() {
    let mut r = reader_over(r#"2017-04-20T10:53:24.6607935+01:00 PRE EXECUTE Task"#);

    match r.next() {
        Some(Event::PreExecuteTask(e)) => assert_eq!(e.value, "Task"),
        e => panic!("Unexpected event: {:?}", e),
    }
}

#[test]
fn should_parse_post_execute_task() {
    let mut r = reader_over(r#"2017-04-20T10:53:24.9420381+01:00 POST EXECUTE Task"#);

    match r.next() {
        Some(Event::PostExecuteTask(e)) => assert_eq!(e.value, "Task"),
        e => panic!("Unexpected event: {:?}", e),
    }
}

#[test]
fn should_ignore_not_needed_lines() {
    let mut r = reader_over(
        "
Start...
2017-04-25T16:43:46.8297379+01:00 PRE EXECUTE Container Start
2017-04-25T16:43:52.3297111+01:00 PRE EXECUTE Package End
2017-04-25T16:43:52.3297111+01:00 POST EXECUTE Package End
2017-04-25T16:43:52.3297111+01:00 POST EXECUTE Container Start
End..
",
    );

    match r.next() {
        None => {}
        e => panic!("Unexpected event: {:?}", e),
    }
}

#[test]
fn should_parse_multiple_events_and_end_with_none() {
    let mut r = reader_over(
        "Start...
Pre-execute package Package
2017-04-20T10:53:24.6607935+01:00 PRE EXECUTE Task
2017-04-20T10:53:24.9420381+01:00 POST EXECUTE Task
Container Name       : Container
End..",
    );
    assert!(matches!(r.next(), Some(Event::PackageStarted(..))));
    assert!(matches!(r.next(), Some(Event::PreExecuteTask(..))));
    assert!(matches!(r.next(), Some(Event::PostExecuteTask(..))));
    assert!(matches!(r.next(), Some(Event::ContainerFinished(..))));
    assert!(matches!(r.next(), None));
}

#[test]
fn classify_reads_timestamp_fields_exactly() {
    // 2017-04-20T10:53:24.6607935+01:00 is 1492682004 s and 660793500 ns
    // into the epoch, at offset +01:00.
    match classify("2017-04-20T10:53:24.6607935+01:00 PRE EXECUTE Task") {
        Some(Event::PreExecuteTask(e)) => {
            assert_eq!(e.value, "Task");
            assert_eq!(e.time.secs, 1492682004);
            assert_eq!(e.time.nanos, 660793500);
            assert_eq!(e.time.offset_secs, 3600);
        }
        e => panic!("Unexpected event: {:?}", e),
    }
}

#[test]
fn classify_rejects_all_denylisted_payloads() {
    let payloads = [
        "PRE EXECUTE Container Start",
        "POST EXECUTE Container Start",
        "PRE EXECUTE Container End",
        "POST EXECUTE Container End",
        "PRE EXECUTE Package Start",
        "POST EXECUTE Package Start",
        "PRE EXECUTE Package End",
        "POST EXECUTE Package End",
    ];
    for payload in payloads.iter() {
        let line = format!("2017-04-25T16:43:46.8297379+01:00 {}", payload);
        assert!(classify(&line).is_none(), "denied payload produced an event: {}", payload);
    }
}

#[test]
fn classify_ignores_line_with_invalid_timestamp_prefix() {
    assert!(classify("xxxx-04-20T10:53:24.6607935+01:00 PRE EXECUTE Task").is_none());
    assert!(classify("some wholly unrelated line").is_none());
    assert!(classify("").is_none());
}

#[test]
fn classify_requires_marker_at_payload_start() {
    // The task marker counts only at the start of the payload.
    assert!(classify("2017-04-20T10:53:24.6607935+01:00 xx PRE EXECUTE Task").is_none());
    // A markerless pattern counts only as the whole line.
    assert!(classify("xx Pre-execute package Foo").is_none());
    assert!(classify("junk Container Name       : C").is_none());
}

#[test]
fn classify_takes_whole_line_patterns_in_order() {
    // The line is exactly the container pattern plus a name; what the name
    // happens to contain plays no part.
    match classify("Container Name       : x Pre-execute package y") {
        Some(Event::ContainerFinished(e)) => {
            assert_eq!(e.value, "x Pre-execute package y")
        }
        e => panic!("Unexpected event: {:?}", e),
    }
}

#[test]
fn classify_captures_rest_of_line_as_name() {
    match classify("2017-04-20T10:53:24.6607935+01:00 PRE EXECUTE Load Data  extra") {
        Some(Event::PreExecuteTask(e)) => assert_eq!(e.value, "Load Data  extra"),
        e => panic!("Unexpected event: {:?}", e),
    }
    match classify("Pre-execute package My Package") {
        Some(Event::PackageStarted(e)) => assert_eq!(e.value, "My Package"),
        e => panic!("Unexpected event: {:?}", e),
    }
}
