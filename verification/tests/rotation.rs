use mlog::config::ConfigError;
use mlog::config::LogMode;
use mlog::config::RotationConfig;
use mlog::fs_model::FsModel;
use mlog::handler::Action;
use mlog::handler::LogHandler;
use mlog::policy::ActiveFileState;
use mlog::policy::should_rotate;
use mlog::rotator::rotated_name;
use mlog::rotator::rotation_renames;

fn config(mode: LogMode, max_files: u32, max_age: u64, max_size: u64) -> RotationConfig {
    RotationConfig::new(mode, b"app.log".to_vec(), max_files, max_age, max_size)
        .expect("valid configuration")
}

#[test]
fn config_rejects_zero_max_files() {
    let r = RotationConfig::new(LogMode::Redirect, b"app.log".to_vec(), 0, 0, 0);
    assert_eq!(r.unwrap_err(), ConfigError::InvalidMaxFiles);
}

#[test]
fn config_accepts_minimum_retention() {
    let c = RotationConfig::new(LogMode::Tee, b"app.log".to_vec(), 1, 60, 1024).unwrap();
    assert_eq!(c.mode, LogMode::Tee);
    assert_eq!(c.path, b"app.log".to_vec());
    assert_eq!(c.max_files, 1);
    assert_eq!(c.max_age, 60);
    assert_eq!(c.max_size, 1024);
}

#[test]
fn unbounded_thresholds_never_rotate() {
    let c = config(LogMode::Redirect, 5, 0, 0);
    let st = ActiveFileState { bytes_written: u64::MAX, created_at: 0 };
    assert!(!should_rotate(&c, &st, u64::MAX));
}

#[test]
fn age_rule_fires_at_threshold() {
    let c = config(LogMode::Redirect, 5, 60, 0);
    let st = ActiveFileState { bytes_written: 0, created_at: 1000 };
    assert!(!should_rotate(&c, &st, 1059));
    assert!(should_rotate(&c, &st, 1060));
    assert!(should_rotate(&c, &st, 2000));
}

#[test]
fn size_rule_fires_at_threshold() {
    let c = config(LogMode::Redirect, 5, 0, 10);
    let young = ActiveFileState { bytes_written: 9, created_at: 0 };
    let full = ActiveFileState { bytes_written: 10, created_at: 0 };
    assert!(!should_rotate(&c, &young, 0));
    assert!(should_rotate(&c, &full, 0));
}

#[test]
fn rename_chain_ages_files_upward() {
    let pairs = rotation_renames(5);
    assert_eq!(pairs, vec![(3, 4), (2, 3), (1, 2), (0, 1)]);
}

#[test]
fn rename_chain_with_single_retained_file() {
    assert_eq!(rotation_renames(1), vec![(0, 1)]);
    assert_eq!(rotation_renames(2), vec![(0, 1)]);
}

#[test]
fn rotated_names_derive_from_path() {
    let path = b"app.log".to_vec();
    assert_eq!(rotated_name(&path, 0), b"app.log".to_vec());
    assert_eq!(rotated_name(&path, 1), b"app.log.1".to_vec());
    assert_eq!(rotated_name(&path, 12), b"app.log.12".to_vec());
    assert_eq!(rotated_name(&path, 305), b"app.log.305".to_vec());
}

#[test]
fn rotating_nothing_is_a_no_op() {
    let mut fs = FsModel::new(6);
    let mut actions = Vec::new();
    for (from, to) in rotation_renames(5) {
        actions.push(Action::Rename { from, to });
    }
    fs.apply_all(&actions);
    assert!(fs.console.is_empty());
    for slot in &fs.slots {
        assert!(slot.is_none());
    }
}

#[test]
fn single_file_retention_moves_active_aside() {
    // With max_files = 1 the chain still renames the active file to the
    // first numbered name before a fresh one is opened.
    let c = config(LogMode::Redirect, 1, 0, 1);
    let mut h = LogHandler::new(Some(c));
    let mut fs = FsModel::new(4);
    let first = h.write(&b"a\n".to_vec(), 0);
    fs.apply_all(&first);
    let second = h.write(&b"b\n".to_vec(), 0);
    fs.apply_all(&second);
    assert_eq!(fs.slots[0], Some(b"b\n".to_vec()));
    assert_eq!(fs.slots[1], Some(b"a\n".to_vec()));
}

#[test]
fn retention_keeps_at_most_max_files() {
    // max_size 1 forces a rotation before every line after the first.
    let c = config(LogMode::Redirect, 3, 0, 1);
    let mut h = LogHandler::new(Some(c));
    let mut fs = FsModel::new(8);
    for line in [b"a\n", b"b\n", b"c\n", b"d\n", b"e\n", b"f\n"] {
        let acts = h.write(&line.to_vec(), 0);
        fs.apply_all(&acts);
        let present = fs.slots.iter().filter(|s| s.is_some()).count();
        assert!(present <= 3);
        for (i, slot) in fs.slots.iter().enumerate() {
            if i >= 3 {
                assert!(slot.is_none());
            }
        }
    }
    // Every write rotated, so the three newest lines survive, newest first.
    assert_eq!(fs.slots[0], Some(b"f\n".to_vec()));
    assert_eq!(fs.slots[1], Some(b"e\n".to_vec()));
    assert_eq!(fs.slots[2], Some(b"d\n".to_vec()));
}
