use file_contexts_generator::config::FilesystemType;
use file_contexts_generator::contexts::ContextSet;
use file_contexts_generator::processor::get_partition_name;
use file_contexts_generator::progress::{display_count, ProgressTracker};
use file_contexts_generator::regex_utils::escape_regex;
use file_contexts_generator::strutil::{first_token, trim_end_str};

#[test]
fn escape_empty() {
    assert_eq!(escape_regex(""), "");
}

#[test]
fn escape_metachars() {
    assert_eq!(escape_regex("a.b(c)*"), "a\\.b\\(c\\)\\*");
    assert_eq!(escape_regex("[]^${}|+?"), "\\[\\]\\^\\$\\{\\}\\|\\+\\?");
}

#[test]
fn escape_clean_path_unchanged() {
    assert_eq!(escape_regex("bin/app_process64"), "bin/app_process64");
}

#[test]
fn escape_idempotent_on_clean_input() {
    let once = escape_regex("system/fonts-v2");
    let twice = escape_regex(&once);
    assert_eq!(once, twice);
}

#[test]
fn escape_does_not_double_backslashes() {
    // An existing backslash passes through; only the metacharacter
    // behind it gains its own backslash.
    assert_eq!(escape_regex("a\\["), "a\\\\[");
}

#[test]
fn fstype_from_str_accepts_known_names() {
    assert_eq!(FilesystemType::from_str("ext4"), Ok(FilesystemType::Ext4));
    assert_eq!(FilesystemType::from_str("EXT4"), Ok(FilesystemType::Ext4));
    assert_eq!(FilesystemType::from_str("Erofs"), Ok(FilesystemType::Erofs));
    assert_eq!(FilesystemType::from_str("f2FS"), Ok(FilesystemType::F2fs));
}

#[test]
fn fstype_from_str_rejects_unknown_names() {
    let r = FilesystemType::from_str("vfat");
    assert_eq!(r, Err(String::from("Unsupported filesystem type: vfat")));
    assert!(FilesystemType::from_str("").is_err());
}

#[test]
fn folder_pattern_values() {
    assert_eq!(FilesystemType::Ext4.folder_pattern(), "(/.*)?");
    assert_eq!(FilesystemType::Erofs.folder_pattern(), "");
    assert_eq!(FilesystemType::F2fs.folder_pattern(), "");
}

#[test]
fn partition_name_is_last_component() {
    assert_eq!(get_partition_name("out/extracted/vendor"), "vendor");
    assert_eq!(get_partition_name("system"), "system");
}

#[test]
fn partition_name_ignores_trailing_slashes() {
    assert_eq!(get_partition_name("out/vendor/"), "vendor");
    assert_eq!(get_partition_name("odm///"), "odm");
}

#[test]
fn partition_name_fallback() {
    assert_eq!(get_partition_name(""), "unknown");
    assert_eq!(get_partition_name("///"), "unknown");
}

#[test]
fn trim_end_drops_trailing_whitespace() {
    assert_eq!(trim_end_str("/vendor/a \t"), "/vendor/a");
    assert_eq!(trim_end_str("/vendor/a"), "/vendor/a");
    assert_eq!(trim_end_str("  "), "");
}

#[test]
fn first_token_takes_first_field() {
    assert_eq!(first_token("/system/bin u:object_r:x:s0"), Some(String::from("/system/bin")));
    assert_eq!(first_token("  lead trail"), Some(String::from("lead")));
    assert_eq!(first_token("solo"), Some(String::from("solo")));
}

#[test]
fn first_token_of_blank_lines() {
    assert_eq!(first_token(""), None);
    assert_eq!(first_token(" \t "), None);
}

#[test]
fn context_set_from_lines() {
    let lines = vec![
        String::from("/system/bin(/.*)? u:object_r:system_file:s0"),
        String::from("   "),
        String::from(""),
        String::from("/vendor/etc u:object_r:vendor_configs_file:s0"),
    ];
    let cs = ContextSet::from_lines(&lines);
    assert!(cs.contains(&String::from("/system/bin(/.*)?")));
    assert!(cs.contains(&String::from("/vendor/etc")));
    assert!(!cs.contains(&String::from("/vendor/bin")));
    assert!(!cs.contains(&String::from("")));
}

#[test]
fn context_set_insert_and_contains() {
    let mut cs = ContextSet::new();
    assert!(!cs.contains(&String::from("/a")));
    cs.insert(String::from("/a"));
    assert!(cs.contains(&String::from("/a")));
}

#[test]
fn progress_bar_mid() {
    let bar = ProgressTracker::progress_bar(5, 10);
    let expected = format!("\r[{}>{}]  50% (5/10)", "=".repeat(24), " ".repeat(25));
    assert_eq!(bar, expected);
}

#[test]
fn progress_bar_done() {
    let bar = ProgressTracker::progress_bar(10, 10);
    let expected = format!("\r[{}] 100% (10/10)", "=".repeat(50));
    assert_eq!(bar, expected);
}

#[test]
fn progress_bar_zero() {
    let bar = ProgressTracker::progress_bar(0, 10);
    let expected = format!("\r[{}]   0% (0/10)", " ".repeat(50));
    assert_eq!(bar, expected);
}

#[test]
fn progress_tracker_counts() {
    let mut t = ProgressTracker::new(3, true);
    assert_eq!(t.current, 0);
    t.increment();
    t.increment();
    assert_eq!(t.current, 2);
    t.increment();
    assert_eq!(t.current, 3);
    let last = t.finish();
    assert_eq!(last, Some(ProgressTracker::progress_bar(3, 3)));
}

#[test]
fn display_count_ignores_regression() {
    assert_eq!(display_count(3, 5), 5);
    assert_eq!(display_count(7, 5), 7);
    assert_eq!(display_count(5, 5), 5);
}

#[test]
fn progress_tracker_silent_finish() {
    let t = ProgressTracker::new(5, false);
    assert_eq!(t.finish(), None);
}
