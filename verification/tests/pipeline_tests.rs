use file_contexts_generator::config::{Config, FilesystemType, Mode};
use file_contexts_generator::contexts::ContextSet;
use file_contexts_generator::processor::{
    classify_entry, count_missing_entries, filter_paths, keep_path, make_chunks, process_chunk,
    PathEntry,
};
use file_contexts_generator::progress::ProgressTracker;

fn test_config(mode: Mode, fstype: FilesystemType, cores: usize) -> Config {
    Config {
        mode,
        fstype,
        extracted_dir: String::from("out/vendor"),
        file_contexts: String::from("out/vendor_file_contexts"),
        cores,
        silent: true,
    }
}

fn entry(path: &str, is_file: bool) -> PathEntry {
    PathEntry { path: String::from(path), is_file }
}

#[test]
fn count_missing_of_empty_tree_is_zero() {
    let config = test_config(Mode::All, FilesystemType::Ext4, 4);
    let existing = ContextSet::new();
    let paths: Vec<String> = Vec::new();
    assert_eq!(count_missing_entries(&paths, &config, "vendor", &existing), 0);
}

#[test]
fn count_missing_counts_absent_paths() {
    let config = test_config(Mode::All, FilesystemType::Ext4, 4);
    let existing = ContextSet::new();
    let paths = vec![String::from("firmware"), String::from("etc/wifi.conf"), String::new()];
    assert_eq!(count_missing_entries(&paths, &config, "vendor", &existing), 2);
}

#[test]
fn count_missing_skips_full_key_matches() {
    let config = test_config(Mode::All, FilesystemType::Ext4, 4);
    let mut existing = ContextSet::new();
    existing.insert(String::from("/vendor/firmware"));
    let paths = vec![String::from("firmware")];
    assert_eq!(count_missing_entries(&paths, &config, "vendor", &existing), 0);
}

#[test]
fn count_missing_skips_folder_key_matches() {
    let config = test_config(Mode::All, FilesystemType::Ext4, 4);
    let mut existing = ContextSet::new();
    existing.insert(String::from("/vendor/firmware(/.*)?"));
    let paths = vec![String::from("firmware")];
    assert_eq!(count_missing_entries(&paths, &config, "vendor", &existing), 0);
}

#[test]
fn count_missing_escapes_before_lookup() {
    let config = test_config(Mode::All, FilesystemType::Erofs, 4);
    let mut existing = ContextSet::new();
    existing.insert(String::from("/vendor/app/Foo\\.apk"));
    let paths = vec![String::from("app/Foo.apk")];
    assert_eq!(count_missing_entries(&paths, &config, "vendor", &existing), 0);
}

#[test]
fn chunks_cover_input_in_order() {
    let files: Vec<PathEntry> = vec![
        entry("a", true),
        entry("b", true),
        entry("c", false),
        entry("d", true),
        entry("e", false),
    ];
    let chunks = make_chunks(&files, 2);
    assert_eq!(chunks.len(), 2);
    assert_eq!(chunks[0].len(), 3);
    assert_eq!(chunks[1].len(), 2);
    let flat: Vec<String> = chunks.iter().flatten().map(|e| e.path.clone()).collect();
    assert_eq!(flat, vec!["a", "b", "c", "d", "e"]);
}

#[test]
fn chunks_respect_ceiling() {
    let files: Vec<PathEntry> = (0..7).map(|i| entry(&format!("p{}", i), true)).collect();
    let chunks = make_chunks(&files, 3);
    // ceil(7 / 3) = 3
    assert!(chunks.len() <= 3);
    for c in &chunks {
        assert!(c.len() <= 3);
    }
    let total: usize = chunks.iter().map(|c| c.len()).sum();
    assert_eq!(total, 7);
}

#[test]
fn no_chunks_for_empty_input() {
    let files: Vec<PathEntry> = Vec::new();
    let chunks = make_chunks(&files, 8);
    assert_eq!(chunks.len(), 0);
}

#[test]
fn single_core_single_chunk() {
    let files: Vec<PathEntry> = vec![entry("a", true), entry("b", false)];
    let chunks = make_chunks(&files, 1);
    assert_eq!(chunks.len(), 1);
    assert_eq!(chunks[0].len(), 2);
}

#[test]
fn keep_path_bin_mode() {
    assert!(keep_path("system/bin/sh", &Mode::Bin));
    assert!(!keep_path("system/etc/hosts", &Mode::Bin));
    assert!(!keep_path("bin", &Mode::Bin));
    assert!(!keep_path("", &Mode::Bin));
    assert!(keep_path("system/etc/hosts", &Mode::All));
    assert!(!keep_path("", &Mode::All));
}

#[test]
fn bin_mode_without_bin_paths_yields_nothing() {
    let paths = vec![String::from("etc/hosts"), String::from("lib/libc.so")];
    let kept = filter_paths(&paths, &Mode::Bin);
    assert!(kept.is_empty());
}

#[test]
fn bin_mode_keeps_only_bin_paths() {
    let paths = vec![
        String::from("bin"),
        String::from("vendor/bin/sh"),
        String::from("etc/hosts"),
    ];
    let kept = filter_paths(&paths, &Mode::Bin);
    assert_eq!(kept, vec![String::from("vendor/bin/sh")]);
}

#[test]
fn classify_entry_emits_missing_file() {
    let existing = ContextSet::new();
    let line = classify_entry("bin/sh", true, "vendor", FilesystemType::Ext4, &existing);
    assert_eq!(line, Some(String::from("/vendor/bin/sh u:object_r:vendor_qti_init_shell_exec:s0")));
}

#[test]
fn classify_entry_skips_present_file() {
    let mut existing = ContextSet::new();
    existing.insert(String::from("/vendor/bin/sh"));
    let line = classify_entry("bin/sh", true, "vendor", FilesystemType::Ext4, &existing);
    assert_eq!(line, None);
}

#[test]
fn classify_entry_skips_empty_path() {
    let existing = ContextSet::new();
    assert_eq!(classify_entry("", true, "vendor", FilesystemType::Ext4, &existing), None);
}

#[test]
fn process_chunk_collects_lines_and_counts_progress() {
    let config = test_config(Mode::All, FilesystemType::Ext4, 2);
    let mut existing = ContextSet::new();
    existing.insert(String::from("/vendor/present"));
    let chunk = vec![
        entry("firmware", false),
        entry("present", true),
        entry("", true),
        entry("bin/sh", true),
    ];
    let mut progress = ProgressTracker::new(4, false);
    let mut results: Vec<String> = Vec::new();
    process_chunk(&chunk, &config, "vendor", &existing, &mut progress, &mut results);
    assert_eq!(progress.current, 4);
    assert_eq!(
        results,
        vec![
            String::from("/vendor/firmware(/.*)? u:object_r:vendor_firmware_file:s0"),
            String::from("/vendor/bin/sh u:object_r:vendor_qti_init_shell_exec:s0"),
        ]
    );
}

#[test]
fn chunked_run_matches_sequential_run() {
    let config = test_config(Mode::All, FilesystemType::Ext4, 3);
    let existing = ContextSet::new();
    let files = vec![
        entry("bin/sh", true),
        entry("etc", false),
        entry("firmware/a.bin", true),
        entry("overlay", false),
        entry("radio/NON-HLOS.bin", true),
        entry("lib/libfoo.so", true),
        entry("app", false),
    ];

    let mut seq_progress = ProgressTracker::new(7, false);
    let mut sequential: Vec<String> = Vec::new();
    process_chunk(&files, &config, "vendor", &existing, &mut seq_progress, &mut sequential);

    let mut chunk_progress = ProgressTracker::new(7, false);
    let mut chunked: Vec<String> = Vec::new();
    for chunk in make_chunks(&files, 3) {
        process_chunk(&chunk, &config, "vendor", &existing, &mut chunk_progress, &mut chunked);
    }

    assert_eq!(chunked, sequential);
    assert_eq!(chunk_progress.current, 7);
}

#[test]
fn rerun_emits_nothing_new() {
    // Feed the first run's lines back as the existing contexts file:
    // the second run finds every entry present.
    let config = test_config(Mode::All, FilesystemType::Ext4, 1);
    let existing = ContextSet::new();
    let chunk = vec![entry("firmware", false), entry("bin/sh", true), entry("etc", false)];
    let mut progress = ProgressTracker::new(3, false);
    let mut first: Vec<String> = Vec::new();
    process_chunk(&chunk, &config, "vendor", &existing, &mut progress, &mut first);
    assert_eq!(first.len(), 3);

    let fed_back = ContextSet::from_lines(&first);
    let paths: Vec<String> = chunk.iter().map(|e| e.path.clone()).collect();
    assert_eq!(count_missing_entries(&paths, &config, "vendor", &fed_back), 0);

    let mut progress2 = ProgressTracker::new(3, false);
    let mut second: Vec<String> = Vec::new();
    process_chunk(&chunk, &config, "vendor", &fed_back, &mut progress2, &mut second);
    assert!(second.is_empty());
}
