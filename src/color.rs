//! Which color and which classification mark an entry receives.

use crate::entry::{ext_of, get_filename_ext, Entry, FileKind};
use crate::settings::{Settings, FM_EXEC, FM_SGID, FM_STICKY, FM_SUID, FT_DIR};
use crate::text::{chars_of, decimal, lower_of, lowercase, push_char, push_decimal};
use vstd::prelude::*;

verus! {

/// The color configured for the extension of a file name, if it has one.
pub open spec fn spec_color_by_ext(name: Seq<char>, settings: Settings) -> Option<u32> {
    match ext_of(name) {
        Some(x) => settings.spec_extension_color(lower_of(x)),
        None => None,
    }
}

/// The color code of an entry, zero meaning none: for a directory the
/// sticky color or the directory color; for a file the setuid, setgid,
/// sticky, executable or extension color, the first that applies; else the
/// color of its file type.
pub open spec fn color_code(e: Entry, s: Settings) -> u32 {
    if e.kind == FileKind::Directory {
        if e.spec_is_sticky() {
            s.color_by_mode[FM_STICKY as int]
        } else {
            s.color_by_filetype[FT_DIR as int]
        }
    } else if e.kind == FileKind::File && e.spec_is_suid() {
        s.color_by_mode[FM_SUID as int]
    } else if e.kind == FileKind::File && e.spec_is_sgid() {
        s.color_by_mode[FM_SGID as int]
    } else if e.kind == FileKind::File && e.spec_is_sticky() {
        s.color_by_mode[FM_STICKY as int]
    } else if e.kind == FileKind::File && e.spec_is_exec() {
        s.color_by_mode[FM_EXEC as int]
    } else if e.kind == FileKind::File && spec_color_by_ext(e.name@, s) is Some {
        spec_color_by_ext(e.name@, s)->0
    } else {
        s.spec_filetype_color(e.kind)
    }
}

/// The style of an entry: its color code and whether it is bold, or none
/// where colors are off or the code is zero. Bold applies to foreground
/// codes, those below 40.
pub open spec fn spec_resolve_color(e: Entry, s: Settings) -> Option<(u32, bool)> {
    if !s.color || color_code(e, s) == 0 {
        None
    } else {
        Some((color_code(e, s), s.bold && color_code(e, s) < 40))
    }
}

/// The terminal escape sequence that selects a color code, bold or not.
pub open spec fn escape_of(code: u32, bold: bool) -> Seq<char> {
    seq!['\x1b', '['] + decimal(code as nat) + (if bold {
        seq![';', '1']
    } else {
        Seq::empty()
    }) + seq!['m']
}

/// The escape sequence that resets the style.
pub open spec fn reset_escape() -> Seq<char> {
    seq!['\x1b', '[', '0', 'm']
}

/// The classification mark of an entry, where marks are on.
pub open spec fn spec_classify(e: Entry, s: Settings) -> Option<char> {
    if !s.classify {
        None
    } else {
        match e.kind {
            FileKind::File => if e.spec_is_exec() {
                Some('*')
            } else {
                None
            },
            FileKind::Directory => Some('/'),
            FileKind::Symlink => if s.long {
                None
            } else {
                Some('@')
            },
            FileKind::Fifo => Some('|'),
            FileKind::Socket => Some('='),
            _ => None,
        }
    }
}

/// The color configured for the extension of a file name.
pub fn color_by_ext(filename: &str, settings: &Settings) -> (r: Option<u32>)
    ensures
        r == spec_color_by_ext(filename@, *settings),
{
    match get_filename_ext(filename) {
        Some(ext) => {
            let lower = lowercase(ext.as_str());
            settings.extension_color(&chars_of(lower.as_str()))
        },
        None => None,
    }
}

fn color_code_of(entry: &Entry, settings: &Settings) -> (r: u32)
    ensures
        r == color_code(*entry, *settings),
{
    if entry.kind == FileKind::Directory {
        if entry.is_sticky() {
            return settings.color_by_mode[FM_STICKY];
        }
        return settings.color_by_filetype[FT_DIR];
    }
    if entry.kind == FileKind::File {
        if entry.is_suid() {
            return settings.color_by_mode[FM_SUID];
        }
        if entry.is_sgid() {
            return settings.color_by_mode[FM_SGID];
        }
        if entry.is_sticky() {
            return settings.color_by_mode[FM_STICKY];
        }
        if entry.is_exec() {
            return settings.color_by_mode[FM_EXEC];
        }
        if let Some(color) = color_by_ext(entry.name.as_str(), settings) {
            return color;
        }
    }
    settings.filetype_color(entry.kind)
}

/// The style of an entry, as `spec_resolve_color` states it.
pub fn resolve_color(entry: &Entry, settings: &Settings) -> (r: Option<(u32, bool)>)
    ensures
        r == spec_resolve_color(*entry, *settings),
{
    if !settings.color {
        return None;
    }
    let code = color_code_of(entry, settings);
    if code == 0 {
        None
    } else {
        Some((code, settings.bold && code < 40))
    }
}

/// The escape sequence for a color code; none for code zero. Bold is
/// applied to foreground codes only.
pub fn format_color(color: u32, config_bold: bool) -> (r: Option<String>)
    ensures
        color == 0 ==> r is None,
        color != 0 ==> (r matches Some(s) && s@ == escape_of(color, config_bold && color < 40)),
{
    if color == 0 {
        None
    } else {
        let mut s = String::new();
        push_char(&mut s, '\x1b');
        push_char(&mut s, '[');
        push_decimal(&mut s, color as u64);
        if config_bold && color < 40 {
            push_char(&mut s, ';');
            push_char(&mut s, '1');
        }
        push_char(&mut s, 'm');
        assert(s@ =~= escape_of(color, config_bold && color < 40));
        Some(s)
    }
}

/// The escape sequence that selects the style of an entry, if it has one.
pub fn colorize(entry: &Entry, settings: &Settings) -> (r: Option<String>)
    ensures
        r is Some <==> spec_resolve_color(*entry, *settings) is Some,
        r matches Some(s) ==> (spec_resolve_color(*entry, *settings) matches Some((code, bold))
            && s@ == escape_of(code, bold)),
{
    if !settings.color {
        return None;
    }
    format_color(color_code_of(entry, settings), settings.bold)
}

/// The mark that classifies an entry, as `spec_classify` states it.
pub fn classify(entry: &Entry, settings: &Settings) -> (r: Option<char>)
    ensures
        r == spec_classify(*entry, *settings),
{
    if !settings.classify {
        return None;
    }
    match entry.kind {
        FileKind::File => {
            if entry.is_exec() {
                Some('*')
            } else {
                None
            }
        },
        FileKind::Directory => Some('/'),
        FileKind::Symlink => {
            if settings.long {
                None
            } else {
                Some('@')
            }
        },
        FileKind::Fifo => Some('|'),
        FileKind::Socket => Some('='),
        _ => None,
    }
}

/// An executable file with a configured extension color resolves to the
/// color of the executable mode, never to the color of its extension; only
/// the setuid, setgid and sticky bits come before it.
pub proof fn lemma_exec_color_precedes_extension(e: Entry, s: Settings)
    requires
        e.kind == FileKind::File,
        e.spec_is_exec(),
        spec_color_by_ext(e.name@, s) is Some,
        !e.spec_is_suid(),
        !e.spec_is_sgid(),
        !e.spec_is_sticky(),
    ensures
        color_code(e, s) == s.color_by_mode[FM_EXEC as int],
        s.color && s.color_by_mode[FM_EXEC as int] != 0 ==> spec_resolve_color(e, s) == Some(
            (s.color_by_mode[FM_EXEC as int], s.bold && s.color_by_mode[FM_EXEC as int] < 40),
        ),
{
}

} // verus!
