use vstd::prelude::*;
use vstd::string::StrSliceExecFns;
use vstd::string::StringExecFns;

use crate::strutil::chars_to_string;

verus! {

/// Which paths a run labels: every path, or only those under a
/// `/bin/` directory.
#[derive(Debug, Clone, PartialEq, Eq, Structural)]
pub enum Mode {
    All,
    Bin,
}

/// The filesystem the partition image uses; it fixes the regex suffix
/// a directory entry carries.
#[derive(Debug, Clone, Copy, PartialEq, Eq, Structural)]
pub enum FilesystemType {
    Ext4,
    Erofs,
    F2fs,
}

/// ASCII lowercasing of the letters that filesystem-type names use;
/// every other character passes through unchanged.
pub open spec fn lower_char(c: char) -> char {
    if c == 'E' {
        'e'
    } else if c == 'X' {
        'x'
    } else if c == 'T' {
        't'
    } else if c == 'R' {
        'r'
    } else if c == 'O' {
        'o'
    } else if c == 'F' {
        'f'
    } else if c == 'S' {
        's'
    } else {
        c
    }
}

/// The filesystem type a string names, compared case-insensitively.
pub open spec fn fstype_of_spec(s: Seq<char>) -> Option<FilesystemType> {
    let lowered = s.map_values(|c: char| lower_char(c));
    if lowered == "ext4"@ {
        Some(FilesystemType::Ext4)
    } else if lowered == "erofs"@ {
        Some(FilesystemType::Erofs)
    } else if lowered == "f2fs"@ {
        Some(FilesystemType::F2fs)
    } else {
        None
    }
}

/// The regex suffix appended to a directory pattern for this
/// filesystem type.
pub open spec fn folder_pattern_spec(t: FilesystemType) -> Seq<char> {
    match t {
        FilesystemType::Ext4 => "(/.*)?"@,
        FilesystemType::Erofs => ""@,
        FilesystemType::F2fs => ""@,
    }
}

fn lower_char_exec(c: char) -> (r: char)
    ensures
        r == lower_char(c),
{
    if c == 'E' {
        'e'
    } else if c == 'X' {
        'x'
    } else if c == 'T' {
        't'
    } else if c == 'R' {
        'r'
    } else if c == 'O' {
        'o'
    } else if c == 'F' {
        'f'
    } else if c == 'S' {
        's'
    } else {
        c
    }
}

impl FilesystemType {
    /// Parses a filesystem-type name, case-insensitively; any other
    /// string is rejected with a message naming it.
    pub fn from_str(s: &str) -> (r: Result<Self, String>)
        ensures
            match r {
                Ok(t) => fstype_of_spec(s@) == Some(t),
                Err(m) => fstype_of_spec(s@) is None && m@ == "Unsupported filesystem type: "@
                    + s@,
            },
    {
        let len = s.unicode_len();
        let mut chars: Vec<char> = Vec::new();
        let mut i: usize = 0;
        while i < len
            invariant
                i <= len,
                len == s@.len(),
                chars@ == s@.take(i as int).map_values(|c: char| lower_char(c)),
            decreases len - i,
        {
            chars.push(lower_char_exec(s.get_char(i)));
            proof {
                assert(s@.take(i + 1).map_values(|c: char| lower_char(c)) =~= s@.take(
                    i as int,
                ).map_values(|c: char| lower_char(c)).push(lower_char(s@[i as int])));
            }
            i += 1;
        }
        proof {
            assert(s@.take(len as int) =~= s@);
        }
        let lowered = chars_to_string(&chars);
        if lowered == String::from_str("ext4") {
            Ok(Self::Ext4)
        } else if lowered == String::from_str("erofs") {
            Ok(Self::Erofs)
        } else if lowered == String::from_str("f2fs") {
            Ok(Self::F2fs)
        } else {
            let mut m = String::new();
            m.append("Unsupported filesystem type: ");
            m.append(s);
            proof {
                assert(m@ =~= "Unsupported filesystem type: "@ + s@);
            }
            Err(m)
        }
    }

    /// The regex suffix appended to a directory pattern for this
    /// filesystem type: `(/.*)?` for Ext4, empty otherwise.
    pub fn folder_pattern(&self) -> (r: &'static str)
        ensures
            r@ == folder_pattern_spec(*self),
    {
        match self {
            Self::Ext4 => "(/.*)?",
            Self::Erofs => "",
            Self::F2fs => "",
        }
    }
}

/// A validated run configuration, handed in by the caller.
#[derive(Debug, Clone)]
pub struct Config {
    pub mode: Mode,
    pub fstype: FilesystemType,
    /// Root of the extracted partition tree, as a forward-slash path.
    pub extracted_dir: String,
    /// The `file_contexts` file read for existing entries and extended
    /// with the missing ones.
    pub file_contexts: String,
    /// Number of worker chunks the path list is split into.
    pub cores: usize,
    pub silent: bool,
}

} // verus!
