//! The entry record: a snapshot of one filesystem object, held as plain values.

use vstd::string::StrSliceExecFns;
use vstd::prelude::*;

verus! {

pub const S_IFMT: u32 = 0o170000;
pub const S_IFSOCK: u32 = 0o140000;
pub const S_IFLNK: u32 = 0o120000;
pub const S_IFREG: u32 = 0o100000;
pub const S_IFBLK: u32 = 0o060000;
pub const S_IFDIR: u32 = 0o040000;
pub const S_IFCHR: u32 = 0o020000;
pub const S_IFIFO: u32 = 0o010000;
pub const S_ISUID: u32 = 0o4000;
pub const S_ISGID: u32 = 0o2000;
pub const S_ISVTX: u32 = 0o1000;

/// The type of a filesystem object.
#[derive(Clone, Copy, Debug, PartialEq, Eq, Structural)]
pub enum FileKind {
    File,
    Directory,
    Symlink,
    Fifo,
    Socket,
    BlockDevice,
    CharDevice,
}

/// A point in time: seconds since the Unix epoch and the nanoseconds within
/// that second.
#[derive(Clone, Copy, Debug, PartialEq, Eq, Structural)]
pub struct Timestamp {
    pub secs: i64,
    pub nanos: u32,
}

impl Timestamp {
    /// The Unix epoch, used where a modification time cannot be read.
    pub fn epoch() -> (r: Timestamp)
        ensures
            r.secs == 0 && r.nanos == 0,
    {
        Timestamp { secs: 0, nanos: 0 }
    }

    /// Earlier timestamps come first: by seconds, then by nanoseconds.
    pub open spec fn spec_cmp(self, other: Timestamp) -> std::cmp::Ordering {
        if self.secs < other.secs {
            std::cmp::Ordering::Less
        } else if self.secs > other.secs {
            std::cmp::Ordering::Greater
        } else if self.nanos < other.nanos {
            std::cmp::Ordering::Less
        } else if self.nanos > other.nanos {
            std::cmp::Ordering::Greater
        } else {
            std::cmp::Ordering::Equal
        }
    }

    pub fn compare(&self, other: &Timestamp) -> (r: std::cmp::Ordering)
        ensures
            r == self.spec_cmp(*other),
    {
        if self.secs < other.secs {
            std::cmp::Ordering::Less
        } else if self.secs > other.secs {
            std::cmp::Ordering::Greater
        } else if self.nanos < other.nanos {
            std::cmp::Ordering::Less
        } else if self.nanos > other.nanos {
            std::cmp::Ordering::Greater
        } else {
            std::cmp::Ordering::Equal
        }
    }
}

/// The file type encoded in the type bits of a Unix mode; unknown types
/// count as plain files.
pub open spec fn kind_of_mode(mode: u32) -> FileKind {
    let t = mode & S_IFMT;
    if t == S_IFDIR {
        FileKind::Directory
    } else if t == S_IFLNK {
        FileKind::Symlink
    } else if t == S_IFBLK {
        FileKind::BlockDevice
    } else if t == S_IFCHR {
        FileKind::CharDevice
    } else if t == S_IFIFO {
        FileKind::Fifo
    } else if t == S_IFSOCK {
        FileKind::Socket
    } else {
        FileKind::File
    }
}

pub fn kind_from_mode(mode: u32) -> (r: FileKind)
    ensures
        r == kind_of_mode(mode),
{
    let t = mode & S_IFMT;
    if t == S_IFDIR {
        FileKind::Directory
    } else if t == S_IFLNK {
        FileKind::Symlink
    } else if t == S_IFBLK {
        FileKind::BlockDevice
    } else if t == S_IFCHR {
        FileKind::CharDevice
    } else if t == S_IFIFO {
        FileKind::Fifo
    } else if t == S_IFSOCK {
        FileKind::Socket
    } else {
        FileKind::File
    }
}

/// The position of the last occurrence of `c` in `s`, or -1.
pub open spec fn last_index_of(s: Seq<char>, c: char) -> int
    decreases s.len(),
{
    if s.len() == 0 {
        -1
    } else if s.last() == c {
        s.len() - 1
    } else {
        last_index_of(s.drop_last(), c)
    }
}

/// The extension of a file name: what follows its last dot, if it has one.
pub open spec fn ext_of(name: Seq<char>) -> Option<Seq<char>> {
    let k = last_index_of(name, '.');
    if k < 0 {
        None
    } else {
        Some(name.subrange(k + 1, name.len() as int))
    }
}

proof fn lemma_last_index_of_bounds(s: Seq<char>, c: char)
    ensures
        -1 <= last_index_of(s, c) < s.len(),
        last_index_of(s, c) >= 0 ==> s[last_index_of(s, c)] == c,
    decreases s.len(),
{
    if s.len() > 0 {
        lemma_last_index_of_bounds(s.drop_last(), c);
    }
}

/// The extension of a file name, as `ext_of` states it.
pub fn get_filename_ext(name: &str) -> (r: Option<String>)
    ensures
        r is Some <==> ext_of(name@) is Some,
        r matches Some(e) ==> ext_of(name@) == Some(e@),
{
    let n = name.unicode_len();
    let mut k: usize = n;
    assert(name@.take(n as int) =~= name@);
    while k > 0
        invariant
            k <= n == name@.len(),
            last_index_of(name@, '.') == last_index_of(name@.take(k as int), '.'),
        decreases k,
    {
        if name.get_char(k - 1) == '.' {
            proof {
                lemma_last_index_of_bounds(name@, '.');
                assert(name@.take(k as int).last() == '.');
            }
            let ext = name.substring_char(k, n);
            return Some(String::from_str(ext));
        }
        assert(name@.take(k as int).drop_last() =~= name@.take(k - 1));
        k = k - 1;
    }
    assert(name@.take(0) =~= Seq::<char>::empty());
    None
}

pub const FILE_ATTRIBUTE_READONLY: u32 = 1;
pub const FILE_ATTRIBUTE_HIDDEN: u32 = 2;
pub const FILE_ATTRIBUTE_SYSTEM: u32 = 4;

/// One filesystem object as the listing sees it.
#[derive(Clone, Debug)]
pub struct Entry {
    /// The file name, converted for display.
    pub name: String,
    pub kind: FileKind,
    /// Size in bytes.
    pub size: u64,
    /// Modification time, where it could be read.
    pub modified: Option<Timestamp>,
    /// The Unix mode: type, permission and special bits, on platforms that
    /// have them.
    pub mode: Option<u32>,
    /// The file attribute bits, on platforms that have them.
    pub attributes: Option<u32>,
    /// Where a symbolic link points.
    pub link_target: Option<String>,
}

/// Whether a name ends in `.exe` or `.EXE`.
pub open spec fn has_exe_suffix(name: Seq<char>) -> bool {
    name.len() >= 4 && {
        let t = name.subrange(name.len() - 4, name.len() as int);
        t == seq!['.', 'e', 'x', 'e'] || t == seq!['.', 'E', 'X', 'E']
    }
}

impl Entry {
    /// A well-formed entry has a non-empty name whose length fits the
    /// address space, and a link target only when it is a symbolic link.
    pub open spec fn wf(&self) -> bool {
        &&& 0 < self.name@.len() <= isize::MAX
        &&& (self.link_target is Some ==> self.kind == FileKind::Symlink)
    }

    /// Builds an entry; there is none for an empty name. A link target is
    /// kept for a symbolic link only.
    pub fn new(
        name: String,
        kind: FileKind,
        size: u64,
        modified: Option<Timestamp>,
        mode: Option<u32>,
        attributes: Option<u32>,
        link_target: Option<String>,
    ) -> (r: Option<Entry>)
        ensures
            r is Some <==> 0 < name@.len() <= isize::MAX,
            r matches Some(e) ==> {
                &&& e.wf()
                &&& e.name@ == name@
                &&& e.kind == kind
                &&& e.size == size
                &&& e.modified == modified
                &&& e.mode == mode
                &&& e.attributes == attributes
                &&& e.link_target == (if kind == FileKind::Symlink {
                    link_target
                } else {
                    None
                })
            },
    {
        let n = name.as_str().unicode_len();
        if n == 0 || n > isize::MAX as usize {
            return None;
        }
        let link_target = if kind == FileKind::Symlink {
            link_target
        } else {
            None
        };
        Some(Entry { name, kind, size, modified, mode, attributes, link_target })
    }

    /// A copy of the entry.
    pub fn duplicate(&self) -> (r: Entry)
        ensures
            r == *self,
    {
        let link_target = match &self.link_target {
            Some(t) => Some(t.clone()),
            None => None,
        };
        Entry {
            name: self.name.clone(),
            kind: self.kind,
            size: self.size,
            modified: self.modified,
            mode: self.mode,
            attributes: self.attributes,
            link_target,
        }
    }

    pub open spec fn spec_mtime(&self) -> Timestamp {
        match self.modified {
            Some(t) => t,
            None => Timestamp { secs: 0, nanos: 0 },
        }
    }

    /// The modification time, or the Unix epoch where it is unknown.
    pub fn mtime(&self) -> (r: Timestamp)
        ensures
            r == self.spec_mtime(),
    {
        match self.modified {
            Some(t) => t,
            None => Timestamp::epoch(),
        }
    }

    /// Hidden: the hidden or system attribute is set, or the name starts
    /// with a dot.
    pub open spec fn spec_is_hidden(&self) -> bool {
        ||| (self.attributes matches Some(a) && a & (FILE_ATTRIBUTE_HIDDEN
            | FILE_ATTRIBUTE_SYSTEM) != 0)
        ||| (self.name@.len() > 0 && self.name@[0] == '.')
    }

    pub fn is_hidden(&self) -> (r: bool)
        ensures
            r == self.spec_is_hidden(),
    {
        if let Some(a) = self.attributes {
            if a & (FILE_ATTRIBUTE_HIDDEN | FILE_ATTRIBUTE_SYSTEM) != 0 {
                return true;
            }
        }
        let s = self.name.as_str();
        if s.unicode_len() == 0 {
            false
        } else {
            s.get_char(0) == '.'
        }
    }

    pub open spec fn spec_is_dir(&self) -> bool {
        self.kind == FileKind::Directory
    }

    pub fn is_dir(&self) -> (r: bool)
        ensures
            r == self.spec_is_dir(),
    {
        self.kind == FileKind::Directory
    }

    /// Executable: a regular file with an execute bit set; where there are
    /// no mode bits, a name ending in `.exe`.
    pub open spec fn spec_is_exec(&self) -> bool {
        match self.mode {
            Some(m) => self.kind == FileKind::File && m & 0o111 != 0,
            None => has_exe_suffix(self.name@),
        }
    }

    pub fn is_exec(&self) -> (r: bool)
        ensures
            r == self.spec_is_exec(),
    {
        match self.mode {
            Some(m) => self.kind == FileKind::File && m & 0o111 != 0,
            None => {
                let s = self.name.as_str();
                let n = s.unicode_len();
                if n < 4 {
                    return false;
                }
                let ghost t = s@.subrange(n - 4, n as int);
                let a = s.get_char(n - 4);
                let b = s.get_char(n - 3);
                let c = s.get_char(n - 2);
                let d = s.get_char(n - 1);
                let lower = a == '.' && b == 'e' && c == 'x' && d == 'e';
                let upper = a == '.' && b == 'E' && c == 'X' && d == 'E';
                assert(lower <==> t =~= seq!['.', 'e', 'x', 'e']);
                assert(upper <==> t =~= seq!['.', 'E', 'X', 'E']);
                lower || upper
            },
        }
    }

    pub open spec fn spec_is_suid(&self) -> bool {
        self.mode matches Some(m) && m & S_ISUID != 0
    }

    pub fn is_suid(&self) -> (r: bool)
        ensures
            r == self.spec_is_suid(),
    {
        match self.mode {
            Some(m) => m & S_ISUID != 0,
            None => false,
        }
    }

    pub open spec fn spec_is_sgid(&self) -> bool {
        self.mode matches Some(m) && m & S_ISGID != 0
    }

    pub fn is_sgid(&self) -> (r: bool)
        ensures
            r == self.spec_is_sgid(),
    {
        match self.mode {
            Some(m) => m & S_ISGID != 0,
            None => false,
        }
    }

    pub open spec fn spec_is_sticky(&self) -> bool {
        self.mode matches Some(m) && m & S_ISVTX != 0
    }

    pub fn is_sticky(&self) -> (r: bool)
        ensures
            r == self.spec_is_sticky(),
    {
        match self.mode {
            Some(m) => m & S_ISVTX != 0,
            None => false,
        }
    }

    pub fn is_fifo(&self) -> (r: bool)
        ensures
            r == (self.kind == FileKind::Fifo),
    {
        self.kind == FileKind::Fifo
    }
}

} // verus!
