use zscan::checkpoint::FileOutcome;
use zscan::checkpoint::Management;
use zscan::errors::ErrorKind;

#[test]
fn empty_record_has_nothing_done() {
    let m = Management::empty();
    assert!(m.c_files.is_empty());
    assert_eq!(m.c_lines, 0);
    assert!(!m.is_done(&"/logs/a.zst".to_string()));
}

#[test]
fn is_done_is_membership() {
    let m = Management {
        c_files: vec!["/logs/a.zst".to_string(), "/logs/b.zst".to_string()],
        c_lines: 12,
    };
    assert!(m.is_done(&"/logs/a.zst".to_string()));
    assert!(m.is_done(&"/logs/b.zst".to_string()));
    assert!(!m.is_done(&"/logs/c.zst".to_string()));
}

#[test]
fn merge_records_completed_outcomes() {
    let base = Management { c_files: vec!["/logs/a.zst".to_string()], c_lines: 10 };
    let parts = vec![
        FileOutcome { file: "/logs/b.zst".to_string(), lines_read: 5, completed: true },
        FileOutcome { file: "/logs/c.zst".to_string(), lines_read: 7, completed: true },
    ];
    let merged = base.merge(&parts);
    assert_eq!(
        merged.c_files,
        vec!["/logs/a.zst".to_string(), "/logs/b.zst".to_string(), "/logs/c.zst".to_string()]
    );
    assert_eq!(merged.c_lines, 22);
}

#[test]
fn merge_discards_incomplete_outcomes() {
    let base = Management::empty();
    let parts = vec![
        FileOutcome { file: "/logs/bad.zst".to_string(), lines_read: 3, completed: false },
        FileOutcome { file: "/logs/good.zst".to_string(), lines_read: 4, completed: true },
    ];
    let merged = base.merge(&parts);
    assert_eq!(merged.c_files, vec!["/logs/good.zst".to_string()]);
    assert_eq!(merged.c_lines, 4);
    assert!(!merged.is_done(&"/logs/bad.zst".to_string()));
}

#[test]
fn merge_is_monotonic() {
    let base = Management {
        c_files: vec!["/logs/a.zst".to_string(), "/logs/b.zst".to_string()],
        c_lines: 100,
    };
    let parts = vec![
        FileOutcome { file: "/logs/c.zst".to_string(), lines_read: 0, completed: true },
        FileOutcome { file: "/logs/d.zst".to_string(), lines_read: 9, completed: false },
    ];
    let merged = base.merge(&parts);
    for f in &base.c_files {
        assert!(merged.is_done(f));
    }
    assert!(merged.c_lines >= base.c_lines);
}

#[test]
fn merge_keeps_each_file_once() {
    let base = Management { c_files: vec!["/logs/a.zst".to_string()], c_lines: 5 };
    let parts = vec![
        FileOutcome { file: "/logs/a.zst".to_string(), lines_read: 5, completed: true },
        FileOutcome { file: "/logs/b.zst".to_string(), lines_read: 2, completed: true },
        FileOutcome { file: "/logs/b.zst".to_string(), lines_read: 2, completed: true },
    ];
    let merged = base.merge(&parts);
    assert_eq!(merged.c_files, vec!["/logs/a.zst".to_string(), "/logs/b.zst".to_string()]);
}

#[test]
fn merge_with_no_outcomes_is_identity() {
    let base = Management { c_files: vec!["/logs/a.zst".to_string()], c_lines: 41 };
    let merged = base.merge(&Vec::new());
    assert_eq!(merged.c_files, base.c_files);
    assert_eq!(merged.c_lines, base.c_lines);
}

#[test]
fn fatal_kinds_are_the_startup_ones() {
    assert!(ErrorKind::Config.is_fatal());
    assert!(ErrorKind::Checkpoint.is_fatal());
    assert!(!ErrorKind::FileIo.is_fatal());
    assert!(!ErrorKind::Sink.is_fatal());
}

#[test]
fn merge_saturates_instead_of_wrapping() {
    let base = Management { c_files: Vec::new(), c_lines: u64::MAX - 1 };
    let parts = vec![FileOutcome { file: "/logs/a.zst".to_string(), lines_read: 5, completed: true }];
    let merged = base.merge(&parts);
    assert_eq!(merged.c_lines, u64::MAX);
}
