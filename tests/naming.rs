use turnstiles::naming::{decimal_string, is_rotated_name, rotated_file_index, rotated_filename};
use turnstiles::rotation::detect_latest_file_index;
use turnstiles::{active_filename, check_options, filename_to_details, PruneCondition, RotationCondition, RotationError};

#[test]
fn active_name_suffix() {
    assert_eq!(active_filename("test.log"), "test.log.ACTIVE");
    assert_eq!(active_filename(""), ".ACTIVE");
}

#[test]
fn decimal_notation() {
    assert_eq!(decimal_string(0), "0");
    assert_eq!(decimal_string(9), "9");
    assert_eq!(decimal_string(10), "10");
    assert_eq!(decimal_string(4_294_967_295), "4294967295");
    assert_eq!(rotated_filename("app.log", 12), "app.log.12");
}

#[test]
fn rotated_name_shape() {
    assert!(is_rotated_name("test.log", "test.log.1"));
    assert!(is_rotated_name("test.log", "test.log.0042"));
    assert!(!is_rotated_name("test.log", "test.log."));
    assert!(!is_rotated_name("test.log", "test.log"));
    assert!(!is_rotated_name("test.log", "test.log.ACTIVE"));
    assert!(!is_rotated_name("test.log", "test.logx1"));
    assert!(!is_rotated_name("test.log", "test.log.1a"));
    assert!(!is_rotated_name("test.log", "best.log.1"));
    assert_eq!(rotated_file_index("test.log", "test.log.0042"), Some(42));
    assert_eq!(rotated_file_index("test.log", "test.log.12"), Some(12));
    assert_eq!(rotated_file_index("test.log", "test.log."), None);
    assert_eq!(rotated_file_index("test.log", "test.log.ACTIVE"), None);
    assert_eq!(rotated_file_index("test.log", "test.log.1a"), None);
    assert_eq!(rotated_file_index("test.log", "test.log.4294967295"), Some(u32::MAX));
    assert_eq!(rotated_file_index("test.log", "test.log.4294967296"), None);
}

#[test]
fn latest_index_of_listing() {
    let names = |v: &[&str]| -> Vec<String> { v.iter().map(|s| s.to_string()).collect() };
    assert_eq!(detect_latest_file_index("a", &names(&[])), Ok(0));
    assert_eq!(detect_latest_file_index("a", &names(&["a.2", "a.10", "a.9", "a", "a.ACTIVE", "b.50"])), Ok(10));
    assert_eq!(detect_latest_file_index("a", &names(&["a.2", "a.5000000000"])), Err(RotationError::CorruptIndex));
    assert_eq!(detect_latest_file_index("a", &names(&["a.2", "a."])), Err(RotationError::CorruptIndex));
    assert_eq!(detect_latest_file_index("a", &names(&["a.2", "a.x", "a..", "ab."])), Ok(2));
}

#[test]
fn path_details() {
    let ok = |p: &str| filename_to_details(p).unwrap();
    assert_eq!(ok("dir/test.log"), ("test.log".to_string(), "dir".to_string()));
    assert_eq!(ok("test.log"), ("test.log".to_string(), ".".to_string()));
    assert_eq!(ok("/test.log"), ("test.log".to_string(), "/".to_string()));
    assert_eq!(ok("/var//log/app.log/"), ("app.log".to_string(), "/var//log".to_string()));
    assert_eq!(ok("a//b.log"), ("b.log".to_string(), "a".to_string()));
    assert_eq!(ok("x/."), ("x".to_string(), ".".to_string()));
    assert_eq!(ok("logs/test.log/."), ("test.log".to_string(), "logs".to_string()));
    assert_eq!(ok("a/./b.log"), ("b.log".to_string(), "a".to_string()));
    assert_eq!(ok("/var/log/./"), ("log".to_string(), "/var".to_string()));
    assert_eq!(ok("./test.log"), ("test.log".to_string(), ".".to_string()));
    assert_eq!(ok("/./test.log"), ("test.log".to_string(), "/".to_string()));
    for bad in ["", "/", "///", "x/..", ".", "..", "./", "/.", "./."] {
        assert_eq!(filename_to_details(bad), Err(RotationError::PathInvalid));
    }
}

#[test]
fn options_checked() {
    assert!(check_options(&RotationCondition::SizeMB(1), &PruneCondition::KeepAll).is_ok());
    assert!(check_options(&RotationCondition::Never, &PruneCondition::MaxFiles(1)).is_ok());
    assert!(check_options(&RotationCondition::Duration(0), &PruneCondition::MaxAge(0)).is_ok());
    assert_eq!(check_options(&RotationCondition::SizeMB(0), &PruneCondition::KeepAll), Err(RotationError::ConfigInvalid));
    assert_eq!(check_options(&RotationCondition::Never, &PruneCondition::MaxFiles(0)), Err(RotationError::ConfigInvalid));
}
