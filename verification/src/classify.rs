use vstd::prelude::*;
use vstd::string::StringExecFns;

use crate::config::folder_pattern_spec;
use crate::config::FilesystemType;
use crate::strutil::contains_seq;
use crate::strutil::contains_sub;

verus! {

/// A partition whose name mentions `vendor` or `odm` takes the vendor
/// rule set; every other partition takes the system rules.
pub open spec fn is_vendor_odm(partition: Seq<char>) -> bool {
    contains_seq(partition, "vendor"@) || contains_seq(partition, "odm"@)
}

pub fn vendor_odm(partition: &str) -> (r: bool)
    ensures
        r == is_vendor_odm(partition@),
{
    contains_sub(partition, "vendor") || contains_sub(partition, "odm")
}

/// The context label of a file, decided by the first matching rule.
/// `path` is the escaped relative path with a leading slash.
pub open spec fn file_label_spec(path: Seq<char>, partition: Seq<char>) -> Seq<char> {
    if contains_seq(path, "/bin/hw/"@) {
        "u:object_r:hal_allocator_default_exec:s0"@
    } else if contains_seq(path, "/bin/"@) {
        if !is_vendor_odm(partition) {
            "u:object_r:system_file:s0"@
        } else {
            "u:object_r:vendor_qti_init_shell_exec:s0"@
        }
    } else if !is_vendor_odm(partition) && (contains_seq(path, "/lib/"@) || contains_seq(
        path,
        "/lib64/"@,
    )) {
        "u:object_r:system_lib_file:s0"@
    } else if is_vendor_odm(partition) {
        if contains_seq(path, "/etc/"@) {
            "u:object_r:vendor_configs_file:s0"@
        } else if contains_seq(path, "/firmware/"@) {
            "u:object_r:vendor_firmware_file:s0"@
        } else if contains_seq(path, "/app/"@) || contains_seq(path, "/priv-app/"@) {
            "u:object_r:vendor_app_file:s0"@
        } else if contains_seq(path, "/framework/"@) {
            "u:object_r:vendor_framework_file:s0"@
        } else if contains_seq(path, "/overlay/"@) {
            "u:object_r:vendor_overlay_file:s0"@
        } else {
            "u:object_r:vendor_file:s0"@
        }
    } else {
        "u:object_r:system_file:s0"@
    }
}

/// The context label of a directory. The vendor sub-rules match the
/// file rules but without a trailing slash on the markers.
pub open spec fn dir_label_spec(path: Seq<char>, partition: Seq<char>) -> Seq<char> {
    if is_vendor_odm(partition) {
        if contains_seq(path, "/etc"@) {
            "u:object_r:vendor_configs_file:s0"@
        } else if contains_seq(path, "/firmware"@) {
            "u:object_r:vendor_firmware_file:s0"@
        } else if contains_seq(path, "/app"@) || contains_seq(path, "/priv-app"@) {
            "u:object_r:vendor_app_file:s0"@
        } else if contains_seq(path, "/framework"@) {
            "u:object_r:vendor_framework_file:s0"@
        } else if contains_seq(path, "/overlay"@) {
            "u:object_r:vendor_overlay_file:s0"@
        } else {
            "u:object_r:vendor_file:s0"@
        }
    } else {
        "u:object_r:system_file:s0"@
    }
}

/// The emitted `file_contexts` line for a file.
pub open spec fn file_line_spec(escaped: Seq<char>, partition: Seq<char>) -> Seq<char> {
    "/"@ + partition + "/"@ + escaped + " "@ + file_label_spec("/"@ + escaped, partition)
}

/// The emitted `file_contexts` line for a directory: the folder
/// suffix of the filesystem type follows the path pattern.
pub open spec fn dir_line_spec(
    escaped: Seq<char>,
    partition: Seq<char>,
    t: FilesystemType,
) -> Seq<char> {
    "/"@ + partition + "/"@ + escaped + folder_pattern_spec(t) + " "@ + dir_label_spec(
        "/"@ + escaped,
        partition,
    )
}

/// Classifies a file and formats its context line
/// `/<partition>/<escaped path> <label>`.
pub fn process_files(escaped_path: &str, partition: &str) -> (r: String)
    ensures
        r@ == file_line_spec(escaped_path@, partition@),
{
    let mut processed = String::from_str("/");
    processed.append(escaped_path);

    let context: &str = if contains_sub(processed.as_str(), "/bin/hw/") {
        "u:object_r:hal_allocator_default_exec:s0"
    } else if contains_sub(processed.as_str(), "/bin/") {
        if !vendor_odm(partition) {
            "u:object_r:system_file:s0"
        } else {
            "u:object_r:vendor_qti_init_shell_exec:s0"
        }
    } else if !vendor_odm(partition) && (contains_sub(processed.as_str(), "/lib/")
        || contains_sub(processed.as_str(), "/lib64/")) {
        "u:object_r:system_lib_file:s0"
    } else if vendor_odm(partition) {
        if contains_sub(processed.as_str(), "/etc/") {
            "u:object_r:vendor_configs_file:s0"
        } else if contains_sub(processed.as_str(), "/firmware/") {
            "u:object_r:vendor_firmware_file:s0"
        } else if contains_sub(processed.as_str(), "/app/") || contains_sub(
            processed.as_str(),
            "/priv-app/",
        ) {
            "u:object_r:vendor_app_file:s0"
        } else if contains_sub(processed.as_str(), "/framework/") {
            "u:object_r:vendor_framework_file:s0"
        } else if contains_sub(processed.as_str(), "/overlay/") {
            "u:object_r:vendor_overlay_file:s0"
        } else {
            "u:object_r:vendor_file:s0"
        }
    } else {
        "u:object_r:system_file:s0"
    };

    let mut r = String::from_str("/");
    r.append(partition);
    r.append("/");
    r.append(escaped_path);
    r.append(" ");
    r.append(context);
    proof {
        assert(r@ =~= file_line_spec(escaped_path@, partition@));
    }
    r
}

/// Classifies a directory and formats its context line
/// `/<partition>/<escaped path><folder suffix> <label>`.
pub fn process_dirs(escaped_path: &str, partition: &str, fstype: &FilesystemType) -> (r: String)
    ensures
        r@ == dir_line_spec(escaped_path@, partition@, *fstype),
{
    let mut processed = String::from_str("/");
    processed.append(escaped_path);

    let context: &str = if vendor_odm(partition) {
        if contains_sub(processed.as_str(), "/etc") {
            "u:object_r:vendor_configs_file:s0"
        } else if contains_sub(processed.as_str(), "/firmware") {
            "u:object_r:vendor_firmware_file:s0"
        } else if contains_sub(processed.as_str(), "/app") || contains_sub(
            processed.as_str(),
            "/priv-app",
        ) {
            "u:object_r:vendor_app_file:s0"
        } else if contains_sub(processed.as_str(), "/framework") {
            "u:object_r:vendor_framework_file:s0"
        } else if contains_sub(processed.as_str(), "/overlay") {
            "u:object_r:vendor_overlay_file:s0"
        } else {
            "u:object_r:vendor_file:s0"
        }
    } else {
        "u:object_r:system_file:s0"
    };

    let mut r = String::from_str("/");
    r.append(partition);
    r.append("/");
    r.append(escaped_path);
    r.append(fstype.folder_pattern());
    r.append(" ");
    r.append(context);
    proof {
        assert(r@ =~= dir_line_spec(escaped_path@, partition@, *fstype));
    }
    r
}

/// Classification is a pure function of its inputs: equal escaped
/// paths, partition names and filesystem types yield the same context
/// line, for files and for directories alike.
pub proof fn lemma_classification_deterministic(
    escaped_a: Seq<char>,
    partition_a: Seq<char>,
    fstype_a: FilesystemType,
    escaped_b: Seq<char>,
    partition_b: Seq<char>,
    fstype_b: FilesystemType,
)
    requires
        escaped_a == escaped_b,
        partition_a == partition_b,
        fstype_a == fstype_b,
    ensures
        file_line_spec(escaped_a, partition_a) == file_line_spec(escaped_b, partition_b),
        dir_line_spec(escaped_a, partition_a, fstype_a) == dir_line_spec(
            escaped_b,
            partition_b,
            fstype_b,
        ),
{
}

} // verus!
