use roster_sync::errors::UpdateError;
use roster_sync::guard::{TransactionGuard, VersionToken, fresh_temp_file_name, temp_file_name};

fn tok(secs: u64, nanos: u32) -> VersionToken {
    VersionToken { secs, nanos }
}

#[test]
fn begin_succeeds_when_timestamp_held_through_read() {
    let t = TransactionGuard::begin(tok(100, 5), tok(100, 5)).unwrap();
    assert_eq!(t.token, tok(100, 5));
}

#[test]
fn begin_fails_when_file_changed_during_read() {
    match TransactionGuard::begin(tok(100, 5), tok(100, 6)) {
        Err(UpdateError::Conflict) => {},
        _ => panic!("expected Conflict"),
    }
}

#[test]
fn checkpoint_detects_any_change() {
    let t = TransactionGuard::begin(tok(100, 5), tok(100, 5)).unwrap();
    assert!(t.checkpoint(tok(100, 5)).is_ok());
    match t.checkpoint(tok(101, 5)) {
        Err(UpdateError::Conflict) => {},
        _ => panic!("expected Conflict"),
    }
    match t.checkpoint(tok(100, 4)) {
        Err(UpdateError::Conflict) => {},
        _ => panic!("expected Conflict"),
    }
}

#[test]
fn backup_name_carries_the_captured_seconds() {
    let t = TransactionGuard::begin(tok(1700000000, 0), tok(1700000000, 0)).unwrap();
    assert_eq!(t.backup_file_name("entry_list.json"), "entry_list.json.backup_1700000000");
}

#[test]
fn temp_name_uses_base36_suffix() {
    assert_eq!(temp_file_name("f.json", 0), "f.json.0");
    assert_eq!(temp_file_name("f.json", 35), "f.json.z");
    assert_eq!(temp_file_name("f.json", 36), "f.json.10");
    assert_eq!(temp_file_name("f.json", 12345678901234567890), "f.json.2lsohxawjui8i");
}

#[test]
fn fresh_temp_name_is_a_sibling_of_the_path() {
    let name = fresh_temp_file_name("f.json");
    assert!(name.starts_with("f.json."));
    assert!(name.len() > "f.json.".len());
}
