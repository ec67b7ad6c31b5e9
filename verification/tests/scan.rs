use zscan::checkpoint::Management;
use zscan::pattern::Matcher;
use zscan::pattern::Query;
use zscan::scanner::FileScan;
use zscan::scanner::failed_outcome;

fn alerts_matchers() -> Vec<Matcher> {
    let q = Query { filename: "alerts".to_string(), expressions: vec!["ERROR".to_string()] };
    vec![q.matcher().unwrap()]
}

// Scenario: empty checkpoint, one five-line file where lines 2 and 4 match
// the single group; the group's sink receives exactly those lines in order
// and the merged checkpoint records the file with five lines.
#[test]
fn scenario_fresh_file_routes_matches_in_order() {
    let matchers = alerts_matchers();
    let checkpoint = Management::empty();
    let file = "/logs/day1.zst".to_string();
    assert!(!checkpoint.is_done(&file));

    let mut scan = FileScan::new(&matchers);
    let mut sink_alerts: Vec<String> = Vec::new();
    let lines = [
        "line one\n",
        "ERROR line two\n",
        "line three\n",
        "line four has an ERROR\n",
        "line five\n",
    ];
    for l in lines {
        scan.process_line(&matchers, &l.to_string());
        if scan.needs_flush() {
            let batches = scan.take_batches();
            sink_alerts.extend(batches.into_iter().next().unwrap());
        }
    }
    let batches = scan.take_batches();
    sink_alerts.extend(batches.into_iter().next().unwrap());
    assert_eq!(
        sink_alerts,
        vec!["ERROR line two\n".to_string(), "line four has an ERROR\n".to_string()]
    );

    assert_eq!(scan.lines_read(), 5);
    let outcome = scan.into_outcome(file.clone());
    let merged = checkpoint.merge(&vec![outcome]);
    assert_eq!(merged.c_files, vec![file]);
    assert_eq!(merged.c_lines, 5);
}

// Scenario: re-run with the checkpoint from the previous scenario; the file
// is skipped, the sink gets no new writes, the checkpoint is unchanged.
#[test]
fn scenario_rerun_skips_completed_file() {
    let file = "/logs/day1.zst".to_string();
    let checkpoint = Management { c_files: vec![file.clone()], c_lines: 5 };

    let mut new_writes = 0u32;
    if !checkpoint.is_done(&file) {
        new_writes += 1;
    }
    assert_eq!(new_writes, 0);

    let merged = checkpoint.merge(&Vec::new());
    assert_eq!(merged.c_files, checkpoint.c_files);
    assert_eq!(merged.c_lines, checkpoint.c_lines);
}

// Scenario: two groups; one line contains both groups' patterns and is
// appended to both output batches.
#[test]
fn scenario_line_matching_two_groups_goes_to_both() {
    let alerts = Query { filename: "alerts".to_string(), expressions: vec!["ERROR".to_string()] };
    let warnings = Query { filename: "warnings".to_string(), expressions: vec!["WARN".to_string()] };
    let matchers = vec![alerts.matcher().unwrap(), warnings.matcher().unwrap()];
    let mut scan = FileScan::new(&matchers);
    scan.process_line(&matchers, &"WARN then ERROR in one line\n".to_string());
    let batches = scan.take_batches();
    assert_eq!(batches[0], vec!["WARN then ERROR in one line\n".to_string()]);
    assert_eq!(batches[1], vec!["WARN then ERROR in one line\n".to_string()]);
}

// Scenario: a stream that fails after three of five lines, one matched line
// already flushed: the flushed line stays in the sink, but the file is
// absent from the merged checkpoint and will be rescanned in full.
#[test]
fn scenario_failed_file_keeps_flushed_lines_but_is_not_recorded() {
    let matchers = alerts_matchers();
    let checkpoint = Management::empty();
    let file = "/logs/broken.zst".to_string();

    let mut scan = FileScan::new(&matchers);
    let mut sink_alerts: Vec<String> = Vec::new();
    scan.process_line(&matchers, &"ERROR early\n".to_string());
    scan.process_line(&matchers, &"quiet\n".to_string());
    scan.process_line(&matchers, &"also quiet\n".to_string());
    let batches = scan.take_batches();
    sink_alerts.extend(batches.into_iter().next().unwrap());
    assert_eq!(sink_alerts, vec!["ERROR early\n".to_string()]);

    // The fourth read fails: the scan stops and reports no completion.
    let outcome = failed_outcome(file.clone());
    let merged = checkpoint.merge(&vec![outcome]);
    assert!(merged.c_files.is_empty());
    assert_eq!(merged.c_lines, 0);
    assert!(!merged.is_done(&file));
    assert_eq!(sink_alerts.len(), 1);
}

#[test]
fn flush_is_demanded_at_the_batch_threshold() {
    let matchers = alerts_matchers();
    let mut scan = FileScan::new(&matchers);
    for i in 0..999 {
        scan.process_line(&matchers, &format!("ERROR number {i}\n"));
        assert!(!scan.needs_flush());
    }
    scan.process_line(&matchers, &"ERROR number 999\n".to_string());
    assert!(scan.needs_flush());
    let batches = scan.take_batches();
    assert_eq!(batches[0].len(), 1000);
    assert_eq!(batches[0][0], "ERROR number 0\n".to_string());
    assert_eq!(batches[0][999], "ERROR number 999\n".to_string());
    assert!(!scan.needs_flush());
    assert_eq!(scan.lines_read(), 1000);
}

#[test]
fn unmatched_lines_are_counted_but_not_buffered() {
    let matchers = alerts_matchers();
    let mut scan = FileScan::new(&matchers);
    scan.process_line(&matchers, &"nothing here\n".to_string());
    scan.process_line(&matchers, &"still nothing\n".to_string());
    assert_eq!(scan.lines_read(), 2);
    let batches = scan.take_batches();
    assert!(batches[0].is_empty());
}

#[test]
fn order_is_preserved_across_flushes() {
    let matchers = alerts_matchers();
    let mut scan = FileScan::new(&matchers);
    let mut sink: Vec<String> = Vec::new();
    for i in 0..2500 {
        scan.process_line(&matchers, &format!("ERROR {i}\n"));
        if scan.needs_flush() {
            sink.extend(scan.take_batches().into_iter().next().unwrap());
        }
    }
    sink.extend(scan.take_batches().into_iter().next().unwrap());
    assert_eq!(sink.len(), 2500);
    for i in 0..2500 {
        assert_eq!(sink[i], format!("ERROR {i}\n"));
    }
}
