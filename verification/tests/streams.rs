use mlog::config::LogMode;
use mlog::config::RotationConfig;
use mlog::fs_model::FsModel;
use mlog::handler::Action;
use mlog::handler::LogHandler;

fn config(mode: LogMode, max_files: u32, max_age: u64, max_size: u64) -> RotationConfig {
    RotationConfig::new(mode, b"app.log".to_vec(), max_files, max_age, max_size)
        .expect("valid configuration")
}

fn lines() -> Vec<Vec<u8>> {
    vec![b"L1".to_vec(), b"L2".to_vec(), b"L3".to_vec()]
}

#[test]
fn redirect_writes_file_only() {
    let mut h = LogHandler::new(Some(config(LogMode::Redirect, 5, 0, 0)));
    let mut fs = FsModel::new(5);
    let acts = h.process(&lines(), 100);
    fs.apply_all(&acts);
    assert!(fs.console.is_empty());
    assert_eq!(fs.slots[0], Some(b"L1\nL2\nL3\n".to_vec()));
    for slot in &fs.slots[1..] {
        assert!(slot.is_none());
    }
}

#[test]
fn tee_echoes_lines_to_console_in_order() {
    let mut h = LogHandler::new(Some(config(LogMode::Tee, 5, 0, 0)));
    let mut fs = FsModel::new(5);
    let acts = h.process(&lines(), 100);
    fs.apply_all(&acts);
    assert_eq!(fs.console, b"L1\nL2\nL3\n".to_vec());
    assert_eq!(fs.slots[0], Some(b"L1\nL2\nL3\n".to_vec()));
}

#[test]
fn tee_echoes_console_before_file_write() {
    let mut h = LogHandler::new(Some(config(LogMode::Tee, 5, 0, 0)));
    let acts = h.write(&b"hello\n".to_vec(), 100);
    let console_at = acts
        .iter()
        .position(|a| matches!(a, Action::Console { .. }))
        .expect("console echo present");
    let append_at = acts
        .iter()
        .position(|a| matches!(a, Action::Append { .. }))
        .expect("file append present");
    assert!(console_at < append_at);
}

#[test]
fn passthrough_without_config_touches_no_file() {
    let mut h = LogHandler::new(None);
    let mut fs = FsModel::new(3);
    let acts = h.write(&b"free\n".to_vec(), 100);
    assert_eq!(acts.len(), 1);
    assert!(matches!(acts[0], Action::Console { .. }));
    fs.apply_all(&acts);
    assert_eq!(fs.console, b"free\n".to_vec());
    for slot in &fs.slots {
        assert!(slot.is_none());
    }
    assert!(h.state.is_none());
}

#[test]
fn writeln_appends_exactly_one_newline() {
    let mut h = LogHandler::new(Some(config(LogMode::Redirect, 5, 0, 0)));
    let acts = h.writeln(&b"hi".to_vec(), 100);
    let appended: Vec<&Vec<u8>> = acts
        .iter()
        .filter_map(|a| match a {
            Action::Append { bytes } => Some(bytes),
            _ => None,
        })
        .collect();
    assert_eq!(appended, vec![&b"hi\n".to_vec()]);
}

#[test]
fn size_rotation_fires_before_third_line() {
    // max_size = 10 bytes, writes of 6 bytes each: the counter reads 6 at
    // the second write (no rotation) and 12 at the third (rotation).
    let mut h = LogHandler::new(Some(config(LogMode::Redirect, 5, 0, 10)));
    let mut fs = FsModel::new(5);

    let first = h.write(&b"aaaaa\n".to_vec(), 0);
    fs.apply_all(&first);
    assert_eq!(h.state.as_ref().unwrap().bytes_written, 6);
    assert_eq!(fs.slots[0], Some(b"aaaaa\n".to_vec()));

    let second = h.write(&b"bbbbb\n".to_vec(), 0);
    assert!(!second.iter().any(|a| matches!(a, Action::Rename { .. } | Action::OpenActive)));
    fs.apply_all(&second);
    assert_eq!(h.state.as_ref().unwrap().bytes_written, 12);
    assert_eq!(fs.slots[0], Some(b"aaaaa\nbbbbb\n".to_vec()));

    let third = h.write(&b"ccccc\n".to_vec(), 0);
    assert!(third.iter().any(|a| matches!(a, Action::Rename { .. })));
    fs.apply_all(&third);
    assert_eq!(h.state.as_ref().unwrap().bytes_written, 6);
    assert_eq!(fs.slots[0], Some(b"ccccc\n".to_vec()));
    assert_eq!(fs.slots[1], Some(b"aaaaa\nbbbbb\n".to_vec()));
}

#[test]
fn processing_no_lines_decides_nothing() {
    let mut h = LogHandler::new(Some(config(LogMode::Tee, 5, 0, 0)));
    let acts = h.process(&Vec::new(), 100);
    assert!(acts.is_empty());
    assert!(h.state.is_none());
}

#[test]
fn age_rotation_starts_a_fresh_file() {
    let mut h = LogHandler::new(Some(config(LogMode::Redirect, 5, 60, 0)));
    let mut fs = FsModel::new(5);

    let first = h.write(&b"old\n".to_vec(), 1000);
    fs.apply_all(&first);
    assert_eq!(h.state.as_ref().unwrap().created_at, 1000);

    let second = h.write(&b"young\n".to_vec(), 1059);
    assert!(!second.iter().any(|a| matches!(a, Action::Rename { .. })));
    fs.apply_all(&second);

    let third = h.write(&b"new\n".to_vec(), 1060);
    assert!(third.iter().any(|a| matches!(a, Action::Rename { .. })));
    fs.apply_all(&third);
    assert_eq!(h.state.as_ref().unwrap().created_at, 1060);
    assert_eq!(fs.slots[0], Some(b"new\n".to_vec()));
    assert_eq!(fs.slots[1], Some(b"old\nyoung\n".to_vec()));
}
