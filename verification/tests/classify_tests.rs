use file_contexts_generator::classify::{process_dirs, process_files};
use file_contexts_generator::config::FilesystemType;

#[test]
fn system_bin_file() {
    let line = process_files("bin/app_process64", "system");
    assert_eq!(line, "/system/bin/app_process64 u:object_r:system_file:s0");
}

#[test]
fn vendor_etc_file() {
    let line = process_files("etc/init/vold.rc", "vendor");
    assert_eq!(line, "/vendor/etc/init/vold.rc u:object_r:vendor_configs_file:s0");
}

#[test]
fn vendor_firmware_dir_ext4() {
    let line = process_dirs("firmware", "vendor", &FilesystemType::Ext4);
    assert_eq!(line, "/vendor/firmware(/.*)? u:object_r:vendor_firmware_file:s0");
}

#[test]
fn bin_hw_file_wins_over_bin() {
    let line = process_files("bin/hw/android.hardware.allocator", "vendor");
    assert_eq!(
        line,
        "/vendor/bin/hw/android.hardware.allocator u:object_r:hal_allocator_default_exec:s0"
    );
}

#[test]
fn vendor_bin_file() {
    let line = process_files("bin/sh", "vendor");
    assert_eq!(line, "/vendor/bin/sh u:object_r:vendor_qti_init_shell_exec:s0");
}

#[test]
fn odm_bin_file() {
    let line = process_files("bin/tool", "odm");
    assert_eq!(line, "/odm/bin/tool u:object_r:vendor_qti_init_shell_exec:s0");
}

#[test]
fn system_lib_file() {
    let line = process_files("lib/libc.so", "system");
    assert_eq!(line, "/system/lib/libc.so u:object_r:system_lib_file:s0");
}

#[test]
fn system_lib64_file() {
    let line = process_files("lib64/libm.so", "system_ext");
    assert_eq!(line, "/system_ext/lib64/libm.so u:object_r:system_lib_file:s0");
}

#[test]
fn vendor_lib_is_not_system_lib() {
    let line = process_files("lib/hw/gralloc.so", "vendor");
    assert_eq!(line, "/vendor/lib/hw/gralloc.so u:object_r:vendor_file:s0");
}

#[test]
fn vendor_firmware_file() {
    let line = process_files("firmware/wlan/cfg.dat", "vendor");
    assert_eq!(line, "/vendor/firmware/wlan/cfg.dat u:object_r:vendor_firmware_file:s0");
}

#[test]
fn vendor_app_file() {
    let line = process_files("app/Gallery/Gallery.apk", "vendor");
    assert_eq!(line, "/vendor/app/Gallery/Gallery.apk u:object_r:vendor_app_file:s0");
}

#[test]
fn vendor_priv_app_file() {
    let line = process_files("priv-app/Dialer/Dialer.apk", "odm");
    assert_eq!(line, "/odm/priv-app/Dialer/Dialer.apk u:object_r:vendor_app_file:s0");
}

#[test]
fn vendor_framework_file() {
    let line = process_files("framework/v.jar", "vendor");
    assert_eq!(line, "/vendor/framework/v.jar u:object_r:vendor_framework_file:s0");
}

#[test]
fn vendor_overlay_file() {
    let line = process_files("overlay/Frame.apk", "vendor");
    assert_eq!(line, "/vendor/overlay/Frame.apk u:object_r:vendor_overlay_file:s0");
}

#[test]
fn vendor_default_file() {
    let line = process_files("etcfoo", "vendor");
    assert_eq!(line, "/vendor/etcfoo u:object_r:vendor_file:s0");
}

#[test]
fn system_default_file() {
    let line = process_files("fonts/Roboto.ttf", "system");
    assert_eq!(line, "/system/fonts/Roboto.ttf u:object_r:system_file:s0");
}

#[test]
fn system_dir_ext4() {
    let line = process_dirs("fonts", "system", &FilesystemType::Ext4);
    assert_eq!(line, "/system/fonts(/.*)? u:object_r:system_file:s0");
}

#[test]
fn vendor_etc_dir_erofs_no_suffix() {
    let line = process_dirs("etc", "vendor", &FilesystemType::Erofs);
    assert_eq!(line, "/vendor/etc u:object_r:vendor_configs_file:s0");
}

#[test]
fn vendor_dir_substring_match_without_slash() {
    // The directory markers are substring matches without a trailing
    // slash, so a top-level directory merely starting with `etc`
    // still takes the configs label.
    let line = process_dirs("etcfoo", "vendor", &FilesystemType::F2fs);
    assert_eq!(line, "/vendor/etcfoo u:object_r:vendor_configs_file:s0");
}

#[test]
fn vendor_app_dir() {
    let line = process_dirs("app", "vendor_dlkm", &FilesystemType::Ext4);
    assert_eq!(line, "/vendor_dlkm/app(/.*)? u:object_r:vendor_app_file:s0");
}

#[test]
fn vendor_overlay_dir() {
    let line = process_dirs("overlay", "odm", &FilesystemType::Erofs);
    assert_eq!(line, "/odm/overlay u:object_r:vendor_overlay_file:s0");
}

#[test]
fn vendor_framework_dir() {
    let line = process_dirs("framework", "vendor", &FilesystemType::F2fs);
    assert_eq!(line, "/vendor/framework u:object_r:vendor_framework_file:s0");
}

#[test]
fn vendor_default_dir() {
    let line = process_dirs("radio", "vendor", &FilesystemType::Erofs);
    assert_eq!(line, "/vendor/radio u:object_r:vendor_file:s0");
}

#[test]
fn classification_is_deterministic() {
    let a = process_files("bin/sh", "vendor");
    let b = process_files("bin/sh", "vendor");
    assert_eq!(a, b);
    let c = process_dirs("etc", "vendor", &FilesystemType::Ext4);
    let d = process_dirs("etc", "vendor", &FilesystemType::Ext4);
    assert_eq!(c, d);
}

#[test]
fn escaped_path_is_used_verbatim() {
    let line = process_files("app/Foo\\ Bar\\.apk", "vendor");
    assert_eq!(line, "/vendor/app/Foo\\ Bar\\.apk u:object_r:vendor_app_file:s0");
}
