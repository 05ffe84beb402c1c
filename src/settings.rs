//! The resolved listing settings, read-only during a listing.

use crate::entry::FileKind;
use crate::text::{chars_of, compare_chars, lemma_lex_cmp_antisymmetric};
use std::cmp::Ordering;
use vstd::prelude::*;

verus! {

// indices into the table of colors by file type
pub const FT_FILE: usize = 0;
pub const FT_DIR: usize = 1;
pub const FT_SYMLINK: usize = 2;
pub const FT_FIFO: usize = 3;
pub const FT_SOCK: usize = 4;
pub const FT_BLOCKDEV: usize = 5;
pub const FT_CHARDEV: usize = 6;
pub const FT_MAX: usize = 7;

// indices into the table of colors by file mode
pub const FM_EXEC: usize = 0;
pub const FM_SUID: usize = 1;
pub const FM_SGID: usize = 2;
pub const FM_STICKY: usize = 3;
pub const FM_MAX: usize = 4;

/// What a listing is ordered by.
#[derive(Clone, Copy, Debug, PartialEq, Eq, Structural)]
pub enum SortKey {
    Name,
    Size,
    Time,
    Extension,
}

/// The position of a file type in the table of colors by file type.
pub open spec fn spec_filetype_index(kind: FileKind) -> usize {
    match kind {
        FileKind::File => FT_FILE,
        FileKind::Directory => FT_DIR,
        FileKind::Symlink => FT_SYMLINK,
        FileKind::Fifo => FT_FIFO,
        FileKind::Socket => FT_SOCK,
        FileKind::BlockDevice => FT_BLOCKDEV,
        FileKind::CharDevice => FT_CHARDEV,
    }
}

pub fn filetype_index(kind: FileKind) -> (r: usize)
    ensures
        r == spec_filetype_index(kind),
        r < FT_MAX,
{
    match kind {
        FileKind::File => FT_FILE,
        FileKind::Directory => FT_DIR,
        FileKind::Symlink => FT_SYMLINK,
        FileKind::Fifo => FT_FIFO,
        FileKind::Socket => FT_SOCK,
        FileKind::BlockDevice => FT_BLOCKDEV,
        FileKind::CharDevice => FT_CHARDEV,
    }
}

/// The color configured for a lowercase extension: the first pair of the
/// table with that key.
pub open spec fn extension_lookup(table: Seq<(String, u32)>, ext: Seq<char>) -> Option<u32>
    decreases table.len(),
{
    if table.len() == 0 {
        None
    } else if table[0].0@ == ext {
        Some(table[0].1)
    } else {
        extension_lookup(table.drop_first(), ext)
    }
}

proof fn lemma_extension_lookup_first(table: Seq<(String, u32)>, ext: Seq<char>, j: int)
    requires
        0 <= j < table.len(),
        table[j].0@ == ext,
        forall|k: int| 0 <= k < j ==> table[k].0@ != ext,
    ensures
        extension_lookup(table, ext) == Some(table[j].1),
    decreases j,
{
    if j > 0 {
        lemma_extension_lookup_first(table.drop_first(), ext, j - 1);
    }
}

proof fn lemma_extension_lookup_absent(table: Seq<(String, u32)>, ext: Seq<char>)
    requires
        forall|k: int| 0 <= k < table.len() ==> table[k].0@ != ext,
    ensures
        extension_lookup(table, ext) is None,
    decreases table.len(),
{
    if table.len() > 0 {
        lemma_extension_lookup_absent(table.drop_first(), ext);
    }
}

proof fn lemma_extension_lookup_same(t1: Seq<(String, u32)>, t2: Seq<(String, u32)>, ext: Seq<char>)
    requires
        t1.len() == t2.len(),
        forall|k: int| 0 <= k < t1.len() ==> (t1[k].0@ == ext <==> t2[k].0@ == ext),
        forall|k: int| 0 <= k < t1.len() && t1[k].0@ == ext ==> t1[k].1 == t2[k].1,
    ensures
        extension_lookup(t1, ext) == extension_lookup(t2, ext),
    decreases t1.len(),
{
    if t1.len() > 0 {
        lemma_extension_lookup_same(t1.drop_first(), t2.drop_first(), ext);
    }
}

proof fn lemma_extension_lookup_push(table: Seq<(String, u32)>, p: (String, u32), ext: Seq<char>)
    ensures
        extension_lookup(table.push(p), ext) == match extension_lookup(table, ext) {
            Some(c) => Some(c),
            None => if p.0@ == ext {
                Some(p.1)
            } else {
                None
            },
        },
    decreases table.len(),
{
    if table.len() > 0 {
        assert(table.push(p).drop_first() =~= table.drop_first().push(p));
        lemma_extension_lookup_push(table.drop_first(), p, ext);
    } else {
        assert(table.push(p).drop_first() =~= table);
    }
}

/// The resolved settings of a listing. A color code of zero means "no color".
#[derive(Clone, Debug)]
pub struct Settings {
    pub color: bool,
    pub bold: bool,
    pub all: bool,
    pub classify: bool,
    pub long: bool,
    pub one: bool,
    pub sort_key: SortKey,
    pub sort_reverse: bool,
    /// Pairs of a lowercase extension and its color code.
    pub color_by_extension: Vec<(String, u32)>,
    pub color_by_filetype: [u32; FT_MAX],
    pub color_by_mode: [u32; FM_MAX],
}

impl Settings {
    /// The default settings.
    pub fn new() -> (r: Settings)
        ensures
            r.is_default(),
    {
        Settings::default()
    }

    pub open spec fn is_default(&self) -> bool {
        &&& self.color
        &&& self.bold
        &&& !self.all
        &&& self.classify
        &&& self.long
        &&& !self.one
        &&& self.sort_key == SortKey::Name
        &&& !self.sort_reverse
        &&& self.color_by_extension@.len() == 0
        &&& forall|i: int| 0 <= i < FT_MAX ==> self.color_by_filetype[i] == 0
        &&& forall|i: int| 0 <= i < FM_MAX ==> self.color_by_mode[i] == 0
    }

    pub open spec fn spec_filetype_color(&self, kind: FileKind) -> u32 {
        self.color_by_filetype[spec_filetype_index(kind) as int]
    }

    /// The color configured for a file type.
    pub fn filetype_color(&self, kind: FileKind) -> (r: u32)
        ensures
            r == self.spec_filetype_color(kind),
    {
        self.color_by_filetype[filetype_index(kind)]
    }

    pub open spec fn spec_extension_color(&self, ext: Seq<char>) -> Option<u32> {
        extension_lookup(self.color_by_extension@, ext)
    }

    /// The color configured for a lowercase extension, if any.
    pub fn extension_color(&self, ext: &Vec<char>) -> (r: Option<u32>)
        ensures
            r == self.spec_extension_color(ext@),
    {
        let table = &self.color_by_extension;
        let mut i: usize = 0;
        assert(table@.skip(0) =~= table@);
        while i < table.len()
            invariant
                i <= table@.len(),
                table@ == self.color_by_extension@,
                extension_lookup(table@, ext@) == extension_lookup(table@.skip(i as int), ext@),
            decreases table.len() - i,
        {
            let key = chars_of(table[i].0.as_str());
            proof {
                lemma_lex_cmp_antisymmetric(key@, ext@);
                assert(table@.skip(i as int).drop_first() =~= table@.skip(i + 1));
                assert(table@.skip(i as int)[0] == table@[i as int]);
            }
            let o = compare_chars(&key, ext);
            if let Ordering::Equal = o {
                return Some(table[i].1);
            }
            i = i + 1;
        }
        None
    }
}

/// Sets the color of a lowercase extension in a table of extension colors,
/// replacing the pair that has the same key.
pub fn insert_extension_color(table: &mut Vec<(String, u32)>, ext: String, color: u32)
    ensures
        forall|e: Seq<char>| #[trigger]
            extension_lookup(final(table)@, e) == if e == ext@ {
                Some(color)
            } else {
                extension_lookup(old(table)@, e)
            },
{
    let key = chars_of(ext.as_str());
    let mut i: usize = 0;
    while i < table.len()
        invariant
            i <= table@.len(),
            *table == *old(table),
            key@ == ext@,
            forall|j: int| 0 <= j < i ==> table@[j].0@ != ext@,
        decreases table.len() - i,
    {
        let k = chars_of(table[i].0.as_str());
        proof {
            lemma_lex_cmp_antisymmetric(k@, key@);
        }
        let o = compare_chars(&k, &key);
        if let Ordering::Equal = o {
            let ghost before = table@;
            table.set(i, (ext, color));
            proof {
                assert forall|e: Seq<char>| #[trigger]
                    extension_lookup(table@, e) == if e == key@ {
                        Some(color)
                    } else {
                        extension_lookup(before, e)
                    } by {
                    if e == key@ {
                        lemma_extension_lookup_first(table@, e, i as int);
                    } else {
                        lemma_extension_lookup_same(before, table@, e);
                    }
                }
            }
            return ;
        }
        i = i + 1;
    }
    let ghost before = table@;
    table.push((ext, color));
    proof {
        assert forall|e: Seq<char>| #[trigger]
            extension_lookup(table@, e) == if e == key@ {
                Some(color)
            } else {
                extension_lookup(before, e)
            } by {
            lemma_extension_lookup_push(before, (ext, color), e);
            if e == key@ {
                lemma_extension_lookup_absent(before, e);
            }
        }
    }
}

impl Default for Settings {
    fn default() -> (r: Settings)
        ensures
            r.is_default(),
    {
        Settings {
            color: true,
            bold: true,
            all: false,
            classify: true,
            long: true,
            one: false,
            sort_key: SortKey::Name,
            sort_reverse: false,
            color_by_extension: Vec::new(),
            color_by_filetype: [0, 0, 0, 0, 0, 0, 0],
            color_by_mode: [0, 0, 0, 0],
        }
    }
}

} // verus!
