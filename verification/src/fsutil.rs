//! Directory entries as plain facts, and what is read off them.

use vstd::prelude::*;
use crate::text::{chars_of, has_prefix, string_from};

verus! {

/// The text shown for an entry whose name cannot be written.
pub open spec fn placeholder() -> Seq<char> {
    seq!['?']
}

/// One entry of a directory: a file or a directory, with the facts that the
/// tree shows or decides by.
#[derive(Clone, Debug, PartialEq, Eq)]
pub struct FileEntry {
    /// The bare file name, where it can be written as text.
    pub name: Option<String>,
    /// The entry's full path. It identifies the entry, orders it among its
    /// siblings and is what a listing of it is asked for by.
    pub path: String,
    /// The entry's canonical path, where it could be resolved.
    pub canonical: Option<String>,
    /// Whether the entry is a directory.
    pub dir: bool,
    /// Whether the platform counts the entry as hidden.
    pub hidden: bool,
    /// Whether the entry is a file that can be executed.
    pub executable: bool,
    /// The entry's size in bytes, 0 where it is not known.
    pub size: u64,
}

/// A `FileEntry` with its texts as sequences of characters.
pub struct EntryView {
    /// The bare file name, where there is one.
    pub name: Option<Seq<char>>,
    /// The full path.
    pub path: Seq<char>,
    /// The canonical path, where it could be resolved.
    pub canonical: Option<Seq<char>>,
    /// Whether the entry is a directory.
    pub dir: bool,
    /// Whether the platform counts the entry as hidden.
    pub hidden: bool,
    /// Whether the entry is a file that can be executed.
    pub executable: bool,
    /// The size in bytes.
    pub size: u64,
}

/// The text that an optional string stands for.
pub open spec fn text_of(s: Option<String>) -> Option<Seq<char>> {
    match s {
        Some(s) => Some(s@),
        None => None,
    }
}

impl View for FileEntry {
    type V = EntryView;

    open spec fn view(&self) -> EntryView {
        EntryView {
            name: text_of(self.name),
            path: self.path@,
            canonical: text_of(self.canonical),
            dir: self.dir,
            hidden: self.hidden,
            executable: self.executable,
            size: self.size,
        }
    }
}

/// The name an entry is shown and matched by: its file name, or the
/// placeholder where it has none.
pub open spec fn shown_name(e: EntryView) -> Seq<char> {
    match e.name {
        Some(name) => name,
        None => placeholder(),
    }
}

/// A name is hidden by the POSIX convention when it begins with a dot.
pub open spec fn dot_name(name: Option<Seq<char>>) -> bool {
    name matches Some(n) && n.len() > 0 && n[0] == '.'
}

/// The permission bits that let anyone execute a file.
pub const EXECUTE_BITS: u32 = 0o111;

/// The attribute bit that marks a hidden file on Windows.
pub const FILE_ATTRIBUTE_HIDDEN: u32 = 0x2;

/// By the POSIX convention an entry is executable when it is known not to
/// be a directory and its mode has an execute bit.
pub open spec fn mode_executable(is_dir: Option<bool>, mode: Option<u32>) -> bool {
    is_dir == Some(false) && (mode matches Some(m) && m & EXECUTE_BITS != 0)
}

/// On Windows an entry is hidden when its attributes hold the hidden bit.
pub open spec fn attribute_hidden(attributes: Option<u32>) -> bool {
    attributes matches Some(a) && a & FILE_ATTRIBUTE_HIDDEN == FILE_ATTRIBUTE_HIDDEN
}

/// Where `base` is a prefix of the canonical path: the rest of that path,
/// without one leading `separator`. Otherwise the name the entry is shown by.
pub open spec fn relative_text(e: EntryView, base: Seq<char>, separator: char) -> Seq<char> {
    if e.canonical is Some && base.is_prefix_of(e.canonical->0) {
        let rest = e.canonical->0.skip(base.len() as int);
        if rest.len() > 0 && rest[0] == separator {
            rest.skip(1)
        } else {
            rest
        }
    } else {
        shown_name(e)
    }
}

/// The kinds of executable image that Windows tells apart.
#[allow(non_camel_case_types)]
#[derive(Clone, Copy, Debug, PartialEq, Eq, Structural)]
pub enum LpBinaryType {
    /// A 32-bit Windows-based application.
    SCS_32BIT_BINARY,
    /// A 64-bit Windows-based application.
    SCS_64BIT_BINARY,
    /// An MS-DOS based application.
    SCS_DOS_BINARY,
    /// A 16-bit OS/2-based application.
    SCS_OS216_BINARY,
    /// A PIF file that executes an MS-DOS based application.
    SCS_PIF_BINARY,
    /// A POSIX based application.
    SCS_POSIX_BINARY,
    /// A 16-bit Windows-based application.
    SCS_WOW_BINARY,
}

impl LpBinaryType {
    /// The number that the system reports for this kind.
    pub open spec fn code_of(self) -> u32 {
        match self {
            LpBinaryType::SCS_32BIT_BINARY => 0,
            LpBinaryType::SCS_64BIT_BINARY => 6,
            LpBinaryType::SCS_DOS_BINARY => 1,
            LpBinaryType::SCS_OS216_BINARY => 5,
            LpBinaryType::SCS_PIF_BINARY => 3,
            LpBinaryType::SCS_POSIX_BINARY => 4,
            LpBinaryType::SCS_WOW_BINARY => 2,
        }
    }

    /// The number that the system reports for this kind.
    pub fn code(self) -> (code: u32)
        ensures
            code == self.code_of(),
    {
        match self {
            LpBinaryType::SCS_32BIT_BINARY => 0,
            LpBinaryType::SCS_64BIT_BINARY => 6,
            LpBinaryType::SCS_DOS_BINARY => 1,
            LpBinaryType::SCS_OS216_BINARY => 5,
            LpBinaryType::SCS_PIF_BINARY => 3,
            LpBinaryType::SCS_POSIX_BINARY => 4,
            LpBinaryType::SCS_WOW_BINARY => 2,
        }
    }

    /// The kind that the system reports as `code`, if there is one.
    pub fn from_code(code: u32) -> (kind: Option<LpBinaryType>)
        ensures
            code <= 6 <==> kind is Some,
            kind matches Some(k) ==> k.code_of() == code,
    {
        if code == 0 {
            Some(LpBinaryType::SCS_32BIT_BINARY)
        } else if code == 1 {
            Some(LpBinaryType::SCS_DOS_BINARY)
        } else if code == 2 {
            Some(LpBinaryType::SCS_WOW_BINARY)
        } else if code == 3 {
            Some(LpBinaryType::SCS_PIF_BINARY)
        } else if code == 4 {
            Some(LpBinaryType::SCS_POSIX_BINARY)
        } else if code == 5 {
            Some(LpBinaryType::SCS_OS216_BINARY)
        } else if code == 6 {
            Some(LpBinaryType::SCS_64BIT_BINARY)
        } else {
            None
        }
    }
}

/// What the tree asks of a directory entry.
pub trait AldarExt {
    /// Whether the platform counts the entry as hidden.
    fn is_hidden(&self) -> bool;

    /// Whether the entry is a file that can be executed.
    fn is_executable(&self) -> bool;

    /// Whether the entry is a directory.
    fn is_dir(&self) -> bool;

    /// The entry's size in bytes, 0 where it is not known.
    fn size(&self) -> u64;

    /// The entry's path relative to `base`, or the name it is shown by where
    /// it has no such path.
    fn full_rel_path(&self, base: &str) -> String;
}

/// `std::path::MAIN_SEPARATOR`: the character that separates the components
/// of a path on this platform, which is the slash or the backslash.
#[verifier::external_body]
pub(crate) fn main_separator() -> (separator: char)
    ensures
        separator == '/' || separator == '\\',
{
    std::path::MAIN_SEPARATOR
}

/// Whether `name` begins with a dot.
pub fn is_dot_name(name: &Option<String>) -> (hidden: bool)
    ensures
        hidden == dot_name(text_of(*name)),
{
    match name {
        Some(n) => {
            let s = n.as_str();
            s.unicode_len() > 0 && s.get_char(0) == '.'
        },
        None => false,
    }
}

impl FileEntry {
    /// An entry classified by the POSIX conventions.
    ///
    /// `is_dir`, `mode` and `len` are the entry's type, permission bits and
    /// length, each `None` where it could not be read. The entry is hidden
    /// when its name begins with a dot, a directory when its type says so,
    /// executable when it is known not to be a directory and has an execute
    /// bit, and of size 0 when its length is unknown.
    pub fn posix(
        name: Option<String>,
        path: String,
        canonical: Option<String>,
        is_dir: Option<bool>,
        mode: Option<u32>,
        len: Option<u64>,
    ) -> (entry: FileEntry)
        ensures
            entry.name == name,
            entry.path == path,
            entry.canonical == canonical,
            entry.dir == (is_dir == Some(true)),
            entry.hidden == dot_name(text_of(name)),
            entry.executable == mode_executable(is_dir, mode),
            entry.size == (if len is Some { len->0 } else { 0 }),
    {
        let hidden = is_dot_name(&name);
        let dir = match is_dir {
            Some(d) => d,
            None => false,
        };
        let executable = match (is_dir, mode) {
            (Some(false), Some(m)) => m & EXECUTE_BITS != 0,
            _ => false,
        };
        let size = match len {
            Some(n) => n,
            None => 0,
        };
        FileEntry { name, path, canonical, dir, hidden, executable, size }
    }

    /// An entry classified by the Windows conventions.
    ///
    /// `attributes` are the entry's file attributes and `binary` the kind of
    /// executable image it was probed to be, each `None` where the system
    /// gave none. The entry is hidden when its attributes hold the hidden
    /// bit, and executable when the probe succeeded.
    pub fn windows(
        name: Option<String>,
        path: String,
        canonical: Option<String>,
        is_dir: Option<bool>,
        attributes: Option<u32>,
        binary: Option<LpBinaryType>,
        len: Option<u64>,
    ) -> (entry: FileEntry)
        ensures
            entry.name == name,
            entry.path == path,
            entry.canonical == canonical,
            entry.dir == (is_dir == Some(true)),
            entry.hidden == attribute_hidden(attributes),
            entry.executable == (binary is Some),
            entry.size == (if len is Some { len->0 } else { 0 }),
    {
        let hidden = match attributes {
            Some(a) => a & FILE_ATTRIBUTE_HIDDEN == FILE_ATTRIBUTE_HIDDEN,
            None => false,
        };
        let dir = match is_dir {
            Some(d) => d,
            None => false,
        };
        let executable = binary.is_some();
        let size = match len {
            Some(n) => n,
            None => 0,
        };
        FileEntry { name, path, canonical, dir, hidden, executable, size }
    }

    /// The name the entry is shown and matched by.
    pub fn display_name(&self) -> (name: String)
        ensures
            name@ == shown_name(self@),
    {
        match &self.name {
            Some(n) => n.clone(),
            None => {
                proof {
                    reveal_strlit("?");
                }
                let name = "?".to_owned();
                name
            },
        }
    }

    /// The entry's path relative to `base`, for a platform whose paths are
    /// separated by `separator`.
    pub fn relative_to(&self, base: &str, separator: char) -> (shown: String)
        ensures
            shown@ == relative_text(self@, base@, separator),
    {
        match &self.canonical {
            Some(full) => {
                let full = chars_of(full.as_str());
                let prefix = chars_of(base);
                if has_prefix(&full, &prefix) {
                    let mut start = prefix.len();
                    if start < full.len() && full[start] == separator {
                        start = start + 1;
                    }
                    let shown = string_from(&full, start);
                    shown
                } else {
                    self.display_name()
                }
            },
            None => self.display_name(),
        }
    }
}

impl AldarExt for FileEntry {
    fn is_hidden(&self) -> (hidden: bool)
        ensures
            hidden == self.hidden,
    {
        self.hidden
    }

    fn is_executable(&self) -> (executable: bool)
        ensures
            executable == self.executable,
    {
        self.executable
    }

    fn is_dir(&self) -> (dir: bool)
        ensures
            dir == self.dir,
    {
        self.dir
    }

    fn size(&self) -> (size: u64)
        ensures
            size == self.size,
    {
        self.size
    }

    /// The entry's path relative to `base`, by this platform's separator,
    /// which is the slash or the backslash.
    fn full_rel_path(&self, base: &str) -> (shown: String)
        ensures
            shown@ == relative_text(self@, base@, '/') || shown@ == relative_text(
                self@,
                base@,
                '\\',
            ),
    {
        let separator = main_separator();
        self.relative_to(base, separator)
    }
}

} // verus!
