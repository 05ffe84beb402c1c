//! Reading the settings out of a configuration document.

use crate::settings::{
    extension_lookup, insert_extension_color, Settings, SortKey, FM_EXEC, FM_MAX, FM_SGID, FM_STICKY, FM_SUID, FT_BLOCKDEV, FT_CHARDEV, FT_DIR,
    FT_FIFO, FT_FILE, FT_MAX, FT_SOCK, FT_SYMLINK,
};
use crate::text::{lower_of, lowercase, same_text};
use vstd::prelude::*;

verus! {

/// A value of a configuration document, as far as the settings read it.
#[derive(Debug)]
pub enum ConfigValue {
    Bool(bool),
    Text(String),
    /// Keys and values, in the order of the document.
    Table(Vec<(String, ConfigValue)>),
    /// Any other value: a number, a list or nothing.
    Other,
}

/// The named colors and their codes.
pub open spec fn color_of_name(name: Seq<char>) -> Option<u32> {
    if name == "normal"@ {
        Some(0)
    } else if name == "reverse"@ {
        Some(7)
    } else if name == "black"@ {
        Some(30)
    } else if name == "red"@ {
        Some(31)
    } else if name == "green"@ {
        Some(32)
    } else if name == "yellow"@ {
        Some(33)
    } else if name == "blue"@ {
        Some(34)
    } else if name == "magenta"@ {
        Some(35)
    } else if name == "cyan"@ {
        Some(36)
    } else if name == "white"@ {
        Some(37)
    } else if name == "bg black"@ {
        Some(40)
    } else if name == "bg red"@ {
        Some(41)
    } else if name == "bg green"@ {
        Some(42)
    } else if name == "bg yellow"@ {
        Some(43)
    } else if name == "bg blue"@ {
        Some(44)
    } else if name == "bg magenta"@ {
        Some(45)
    } else if name == "bg cyan"@ {
        Some(46)
    } else if name == "bg white"@ {
        Some(47)
    } else {
        None
    }
}

/// The color code of a color name.
pub fn color_by_name(name: &str) -> (r: Option<u32>)
    ensures
        r == color_of_name(name@),
{
    if same_text(name, "normal") {
        Some(0)
    } else if same_text(name, "reverse") {
        Some(7)
    } else if same_text(name, "black") {
        Some(30)
    } else if same_text(name, "red") {
        Some(31)
    } else if same_text(name, "green") {
        Some(32)
    } else if same_text(name, "yellow") {
        Some(33)
    } else if same_text(name, "blue") {
        Some(34)
    } else if same_text(name, "magenta") {
        Some(35)
    } else if same_text(name, "cyan") {
        Some(36)
    } else if same_text(name, "white") {
        Some(37)
    } else if same_text(name, "bg black") {
        Some(40)
    } else if same_text(name, "bg red") {
        Some(41)
    } else if same_text(name, "bg green") {
        Some(42)
    } else if same_text(name, "bg yellow") {
        Some(43)
    } else if same_text(name, "bg blue") {
        Some(44)
    } else if same_text(name, "bg magenta") {
        Some(45)
    } else if same_text(name, "bg cyan") {
        Some(46)
    } else if same_text(name, "bg white") {
        Some(47)
    } else {
        None
    }
}

/// The file type names and their positions in the table of colors by file
/// type.
pub open spec fn filetype_of_name(name: Seq<char>) -> Option<usize> {
    if name == "file"@ {
        Some(FT_FILE)
    } else if name == "directory"@ {
        Some(FT_DIR)
    } else if name == "symlink"@ {
        Some(FT_SYMLINK)
    } else if name == "fifo"@ {
        Some(FT_FIFO)
    } else if name == "sock"@ {
        Some(FT_SOCK)
    } else if name == "blockdev"@ {
        Some(FT_BLOCKDEV)
    } else if name == "chardev"@ {
        Some(FT_CHARDEV)
    } else {
        None
    }
}

pub fn filetype_by_name(name: &str) -> (r: Option<usize>)
    ensures
        r == filetype_of_name(name@),
{
    if same_text(name, "file") {
        Some(FT_FILE)
    } else if same_text(name, "directory") {
        Some(FT_DIR)
    } else if same_text(name, "symlink") {
        Some(FT_SYMLINK)
    } else if same_text(name, "fifo") {
        Some(FT_FIFO)
    } else if same_text(name, "sock") {
        Some(FT_SOCK)
    } else if same_text(name, "blockdev") {
        Some(FT_BLOCKDEV)
    } else if same_text(name, "chardev") {
        Some(FT_CHARDEV)
    } else {
        None
    }
}

/// The file mode names and their positions in the table of colors by file
/// mode.
pub open spec fn filemode_of_name(name: Seq<char>) -> Option<usize> {
    if name == "exec"@ {
        Some(FM_EXEC)
    } else if name == "suid"@ {
        Some(FM_SUID)
    } else if name == "sgid"@ {
        Some(FM_SGID)
    } else if name == "sticky"@ {
        Some(FM_STICKY)
    } else {
        None
    }
}

pub fn filemode_by_name(name: &str) -> (r: Option<usize>)
    ensures
        r == filemode_of_name(name@),
{
    if same_text(name, "exec") {
        Some(FM_EXEC)
    } else if same_text(name, "suid") {
        Some(FM_SUID)
    } else if same_text(name, "sgid") {
        Some(FM_SGID)
    } else if same_text(name, "sticky") {
        Some(FM_STICKY)
    } else {
        None
    }
}

/// What is wrong with a part of a configuration document.
#[derive(Clone, Copy, Debug, PartialEq, Eq, Structural)]
pub enum ConfigErrorKind {
    /// A flag that is not `true` or `false`; the subject is its key.
    NotBoolean,
    /// A section that is not a table; the subject is the section's name.
    NotMap,
    /// A color name that is not known; the subject is the name as written.
    InvalidColorName,
    /// A color that is not a string; the subject is the section's name.
    InvalidColorString,
    /// A file type or file mode that is not known; the subject is the key as
    /// written.
    InvalidName,
}

/// One error in a configuration document.
#[derive(Debug)]
pub struct ConfigError {
    pub kind: ConfigErrorKind,
    pub subject: String,
}

/// The errors are those listed, kind and subject, in order.
pub open spec fn errors_match(errs: Seq<ConfigError>, expected: Seq<(ConfigErrorKind, Seq<char>)>) -> bool {
    &&& errs.len() == expected.len()
    &&& forall|i: int|
        0 <= i < errs.len() ==> errs[i].kind == expected[i].0 && errs[i].subject@ == expected[i].1
}

fn config_error(kind: ConfigErrorKind, subject: &str) -> (r: ConfigError)
    ensures
        r.kind == kind,
        r.subject@ == subject@,
{
    ConfigError { kind, subject: String::from_str(subject) }
}

/// The color of an extension after the entries of the extension section:
/// the last valid entry whose lowercase key is that extension decides.
pub open spec fn extension_color_from(es: Seq<(String, ConfigValue)>, ext: Seq<char>) -> Option<u32>
    decreases es.len(),
{
    if es.len() == 0 {
        None
    } else {
        let prev = extension_color_from(es.drop_last(), ext);
        match es.last().1 {
            ConfigValue::Text(t) => if lower_of(es.last().0@) == ext && color_of_name(
                lower_of(t@),
            ) is Some {
                color_of_name(lower_of(t@))
            } else {
                prev
            },
            _ => prev,
        }
    }
}

/// The errors of the entries of the extension section.
pub open spec fn extension_errors(es: Seq<(String, ConfigValue)>) -> Seq<(ConfigErrorKind, Seq<char>)>
    decreases es.len(),
{
    if es.len() == 0 {
        Seq::empty()
    } else {
        let prev = extension_errors(es.drop_last());
        match es.last().1 {
            ConfigValue::Text(t) => if color_of_name(lower_of(t@)) is Some {
                prev
            } else {
                prev.push((ConfigErrorKind::InvalidColorName, t@))
            },
            _ => prev.push((ConfigErrorKind::InvalidColorString, "extension"@)),
        }
    }
}

/// Reads the extension section: a table of extensions and color names.
pub fn load_config_extension(extension_value: &ConfigValue) -> (r: (Vec<(String, u32)>, Vec<ConfigError>))
    ensures
        match *extension_value {
            ConfigValue::Table(es) => {
                &&& forall|ext: Seq<char>| #[trigger]
                    extension_lookup(r.0@, ext) == extension_color_from(es@, ext)
                &&& errors_match(r.1@, extension_errors(es@))
            },
            _ => r.0@.len() == 0 && errors_match(
                r.1@,
                seq![(ConfigErrorKind::NotMap, "extension"@)],
            ),
        },
{
    let mut color_map: Vec<(String, u32)> = Vec::new();
    let mut errors: Vec<ConfigError> = Vec::new();
    match extension_value {
        ConfigValue::Table(extensions) => {
            let mut i: usize = 0;
            assert(extensions@.take(0) =~= Seq::<(String, ConfigValue)>::empty());
            while i < extensions.len()
                invariant
                    i <= extensions@.len(),
                    forall|ext: Seq<char>| #[trigger]
                        extension_lookup(color_map@, ext) == extension_color_from(
                            extensions@.take(i as int),
                            ext,
                        ),
                    errors_match(errors@, extension_errors(extensions@.take(i as int))),
                decreases extensions.len() - i,
            {
                let ghost prefix = extensions@.take(i + 1);
                assert(prefix.drop_last() =~= extensions@.take(i as int));
                let (key, value) = &extensions[i];
                match value {
                    ConfigValue::Text(svalue) => {
                        let lower_value = lowercase(svalue.as_str());
                        match color_by_name(lower_value.as_str()) {
                            Some(color) => {
                                let lower_key = lowercase(key.as_str());
                                insert_extension_color(&mut color_map, lower_key, color);
                            },
                            None => {
                                errors.push(
                                    config_error(ConfigErrorKind::InvalidColorName, svalue.as_str()),
                                );
                            },
                        }
                    },
                    _ => {
                        errors.push(config_error(ConfigErrorKind::InvalidColorString, "extension"));
                    },
                }
                i = i + 1;
            }
            assert(extensions@.take(extensions@.len() as int) =~= extensions@);
        },
        _ => {
            errors.push(config_error(ConfigErrorKind::NotMap, "extension"));
        },
    }
    (color_map, errors)
}

/// The position of a file type name, or of a file mode name.
pub open spec fn name_index(modes: bool, name: Seq<char>) -> Option<usize> {
    if modes {
        filemode_of_name(name)
    } else {
        filetype_of_name(name)
    }
}

pub open spec fn table_size(modes: bool) -> nat {
    if modes {
        FM_MAX as nat
    } else {
        FT_MAX as nat
    }
}

/// The table of colors after the entries of the file type section (or of
/// the file mode section): each valid entry sets the color of its type.
pub open spec fn type_table_from(es: Seq<(String, ConfigValue)>, modes: bool) -> Seq<u32>
    decreases es.len(),
{
    if es.len() == 0 {
        Seq::new(table_size(modes), |i: int| 0u32)
    } else {
        let prev = type_table_from(es.drop_last(), modes);
        match name_index(modes, lower_of(es.last().0@)) {
            Some(ix) => match es.last().1 {
                ConfigValue::Text(t) => match color_of_name(lower_of(t@)) {
                    Some(c) => prev.update(ix as int, c),
                    None => prev,
                },
                _ => prev,
            },
            None => prev,
        }
    }
}

/// The errors of the entries of the file type section (or of the file mode
/// section, named `section`).
pub open spec fn type_errors(es: Seq<(String, ConfigValue)>, modes: bool, section: Seq<char>) -> Seq<
    (ConfigErrorKind, Seq<char>),
>
    decreases es.len(),
{
    if es.len() == 0 {
        Seq::empty()
    } else {
        let prev = type_errors(es.drop_last(), modes, section);
        match name_index(modes, lower_of(es.last().0@)) {
            Some(ix) => match es.last().1 {
                ConfigValue::Text(t) => match color_of_name(lower_of(t@)) {
                    Some(c) => prev,
                    None => prev.push((ConfigErrorKind::InvalidColorName, t@)),
                },
                _ => prev.push((ConfigErrorKind::InvalidColorString, section)),
            },
            None => prev.push((ConfigErrorKind::InvalidName, es.last().0@)),
        }
    }
}

proof fn lemma_type_table_len(es: Seq<(String, ConfigValue)>, modes: bool)
    ensures
        type_table_from(es, modes).len() == table_size(modes),
    decreases es.len(),
{
    if es.len() > 0 {
        lemma_type_table_len(es.drop_last(), modes);
    }
}

fn load_type_table(value: &ConfigValue, modes: bool, section: &str) -> (r: (Vec<u32>, Vec<ConfigError>))
    ensures
        r.0@.len() == table_size(modes),
        match *value {
            ConfigValue::Table(es) => r.0@ == type_table_from(es@, modes) && errors_match(
                r.1@,
                type_errors(es@, modes, section@),
            ),
            _ => r.0@ == Seq::new(table_size(modes), |i: int| 0u32) && errors_match(
                r.1@,
                seq![(ConfigErrorKind::NotMap, section@)],
            ),
        },
{
    let size = if modes {
        FM_MAX
    } else {
        FT_MAX
    };
    let mut color_map: Vec<u32> = vec![0; size];
    assert(color_map@ =~= Seq::new(table_size(modes), |i: int| 0u32));
    let mut errors: Vec<ConfigError> = Vec::new();
    match value {
        ConfigValue::Table(entries) => {
            let mut i: usize = 0;
            assert(entries@.take(0) =~= Seq::<(String, ConfigValue)>::empty());
            while i < entries.len()
                invariant
                    i <= entries@.len(),
                    size == table_size(modes),
                    color_map@ == type_table_from(entries@.take(i as int), modes),
                    errors_match(errors@, type_errors(entries@.take(i as int), modes, section@)),
                decreases entries.len() - i,
            {
                let ghost prefix = entries@.take(i + 1);
                assert(prefix.drop_last() =~= entries@.take(i as int));
                proof {
                    lemma_type_table_len(entries@.take(i as int), modes);
                }
                let (key, value) = &entries[i];
                let lower_key = lowercase(key.as_str());
                let index = if modes {
                    filemode_by_name(lower_key.as_str())
                } else {
                    filetype_by_name(lower_key.as_str())
                };
                match index {
                    Some(ix) => match value {
                        ConfigValue::Text(svalue) => {
                            let lower_value = lowercase(svalue.as_str());
                            match color_by_name(lower_value.as_str()) {
                                Some(color) => {
                                    color_map.set(ix, color);
                                },
                                None => {
                                    errors.push(
                                        config_error(
                                            ConfigErrorKind::InvalidColorName,
                                            svalue.as_str(),
                                        ),
                                    );
                                },
                            }
                        },
                        _ => {
                            errors.push(config_error(ConfigErrorKind::InvalidColorString, section));
                        },
                    },
                    None => {
                        errors.push(config_error(ConfigErrorKind::InvalidName, key.as_str()));
                    },
                }
                i = i + 1;
            }
            assert(entries@.take(entries@.len() as int) =~= entries@);
            proof {
                lemma_type_table_len(entries@, modes);
            }
        },
        _ => {
            errors.push(config_error(ConfigErrorKind::NotMap, section));
        },
    }
    (color_map, errors)
}

/// Reads the file type section: a table of file type names and color names.
pub fn load_config_filetype(filetype_value: &ConfigValue) -> (r: ([u32; FT_MAX], Vec<ConfigError>))
    ensures
        match *filetype_value {
            ConfigValue::Table(es) => r.0@ == type_table_from(es@, false) && errors_match(
                r.1@,
                type_errors(es@, false, "filetype"@),
            ),
            _ => r.0@ == Seq::new(FT_MAX as nat, |i: int| 0u32) && errors_match(
                r.1@,
                seq![(ConfigErrorKind::NotMap, "filetype"@)],
            ),
        },
{
    let (v, errors) = load_type_table(filetype_value, false, "filetype");
    let table = [v[0], v[1], v[2], v[3], v[4], v[5], v[6]];
    assert(table@ =~= v@);
    (table, errors)
}

/// Reads the file mode section: a table of file mode names and color names.
pub fn load_config_filemode(mode_value: &ConfigValue) -> (r: ([u32; FM_MAX], Vec<ConfigError>))
    ensures
        match *mode_value {
            ConfigValue::Table(es) => r.0@ == type_table_from(es@, true) && errors_match(
                r.1@,
                type_errors(es@, true, "mode"@),
            ),
            _ => r.0@ == Seq::new(FM_MAX as nat, |i: int| 0u32) && errors_match(
                r.1@,
                seq![(ConfigErrorKind::NotMap, "mode"@)],
            ),
        },
{
    let (v, errors) = load_type_table(mode_value, true, "mode");
    let table = [v[0], v[1], v[2], v[3]];
    assert(table@ =~= v@);
    (table, errors)
}

/// The value of the first entry with this key.
pub open spec fn table_get(es: Seq<(String, ConfigValue)>, key: Seq<char>) -> Option<ConfigValue>
    decreases es.len(),
{
    if es.len() == 0 {
        None
    } else if es[0].0@ == key {
        Some(es[0].1)
    } else {
        table_get(es.drop_first(), key)
    }
}

/// The value of a key of a document; a document that is not a table has
/// none.
pub open spec fn config_get(data: ConfigValue, key: Seq<char>) -> Option<ConfigValue> {
    match data {
        ConfigValue::Table(es) => table_get(es@, key),
        _ => None,
    }
}

/// A flag of the document, or its default where it is absent or not a
/// boolean.
pub open spec fn flag_setting(data: ConfigValue, key: Seq<char>, default: bool) -> bool {
    match config_get(data, key) {
        Some(ConfigValue::Bool(b)) => b,
        _ => default,
    }
}

pub open spec fn flag_errors(data: ConfigValue, key: Seq<char>) -> Seq<(ConfigErrorKind, Seq<char>)> {
    match config_get(data, key) {
        None => Seq::empty(),
        Some(ConfigValue::Bool(_)) => Seq::empty(),
        Some(_) => seq![(ConfigErrorKind::NotBoolean, key)],
    }
}

pub open spec fn extension_section_errors(data: ConfigValue) -> Seq<(ConfigErrorKind, Seq<char>)> {
    match config_get(data, "extension"@) {
        None => Seq::empty(),
        Some(ConfigValue::Table(es)) => extension_errors(es@),
        Some(_) => seq![(ConfigErrorKind::NotMap, "extension"@)],
    }
}

pub open spec fn type_section_errors(data: ConfigValue, modes: bool, section: Seq<char>) -> Seq<
    (ConfigErrorKind, Seq<char>),
> {
    match config_get(data, section) {
        None => Seq::empty(),
        Some(ConfigValue::Table(es)) => type_errors(es@, modes, section),
        Some(_) => seq![(ConfigErrorKind::NotMap, section)],
    }
}

/// All errors of a document, in the order in which they are found: the
/// flags `color`, `bold` and `classify`, then the sections `extension`,
/// `filetype` and `mode`.
pub open spec fn config_errors(data: ConfigValue) -> Seq<(ConfigErrorKind, Seq<char>)> {
    flag_errors(data, "color"@) + flag_errors(data, "bold"@) + flag_errors(data, "classify"@)
        + extension_section_errors(data) + type_section_errors(data, false, "filetype"@)
        + type_section_errors(data, true, "mode"@)
}

/// The color that a document gives an extension.
pub open spec fn config_extension_color(data: ConfigValue, ext: Seq<char>) -> Option<u32> {
    match config_get(data, "extension"@) {
        Some(ConfigValue::Table(es)) => extension_color_from(es@, ext),
        _ => None,
    }
}

/// The table of colors that a document gives file types or file modes.
pub open spec fn config_type_table(data: ConfigValue, modes: bool, section: Seq<char>) -> Seq<u32> {
    match config_get(data, section) {
        Some(ConfigValue::Table(es)) => type_table_from(es@, modes),
        _ => Seq::new(table_size(modes), |i: int| 0u32),
    }
}

fn find_key(entries: &Vec<(String, ConfigValue)>, key: &str) -> (r: Option<usize>)
    ensures
        match r {
            Some(i) => i < entries@.len() && table_get(entries@, key@) == Some(entries@[i as int].1),
            None => table_get(entries@, key@) is None,
        },
{
    let mut i: usize = 0;
    assert(entries@.skip(0) =~= entries@);
    while i < entries.len()
        invariant
            i <= entries@.len(),
            table_get(entries@, key@) == table_get(entries@.skip(i as int), key@),
        decreases entries.len() - i,
    {
        assert(entries@.skip(i as int).drop_first() =~= entries@.skip(i + 1));
        assert(entries@.skip(i as int)[0] == entries@[i as int]);
        if same_text(entries[i].0.as_str(), key) {
            return Some(i);
        }
        i = i + 1;
    }
    None
}

fn append_errors(
    errors: &mut Vec<ConfigError>,
    more: Vec<ConfigError>,
    Ghost(prior): Ghost<Seq<(ConfigErrorKind, Seq<char>)>>,
    Ghost(add): Ghost<Seq<(ConfigErrorKind, Seq<char>)>>,
)
    requires
        errors_match(old(errors)@, prior),
        errors_match(more@, add),
    ensures
        errors_match(final(errors)@, prior + add),
{
    let mut more = more;
    let ghost e = errors@;
    let ghost m = more@;
    errors.append(&mut more);
    proof {
        assert(errors@.take(e.len() as int) =~= e);
        assert(errors@.skip(e.len() as int) =~= m);
        lemma_errors_concat(errors@, e.len() as int, prior, add);
    }
}

fn read_flag(
    entries: &Vec<(String, ConfigValue)>,
    key: &str,
    flag: &mut bool,
    errors: &mut Vec<ConfigError>,
    Ghost(prior): Ghost<Seq<(ConfigErrorKind, Seq<char>)>>,
)
    requires
        errors_match(old(errors)@, prior),
    ensures
        *final(flag) == match table_get(entries@, key@) {
            Some(ConfigValue::Bool(b)) => b,
            _ => *old(flag),
        },
        errors_match(
            final(errors)@,
            prior + match table_get(entries@, key@) {
                None => Seq::empty(),
                Some(ConfigValue::Bool(_)) => Seq::empty(),
                Some(_) => seq![(ConfigErrorKind::NotBoolean, key@)],
            },
        ),
{
    let mut more: Vec<ConfigError> = Vec::new();
    if let Some(i) = find_key(entries, key) {
        match &entries[i].1 {
            ConfigValue::Bool(b) => {
                *flag = *b;
            },
            _ => {
                more.push(config_error(ConfigErrorKind::NotBoolean, key));
            },
        }
    }
    append_errors(
        errors,
        more,
        Ghost(prior),
        Ghost(
            match table_get(entries@, key@) {
                None => Seq::empty(),
                Some(ConfigValue::Bool(_)) => Seq::empty(),
                Some(_) => seq![(ConfigErrorKind::NotBoolean, key@)],
            },
        ),
    );
}

fn read_sections(
    entries: &Vec<(String, ConfigValue)>,
    settings: &mut Settings,
    errors: &mut Vec<ConfigError>,
    Ghost(prior): Ghost<Seq<(ConfigErrorKind, Seq<char>)>>,
)
    requires
        errors_match(old(errors)@, prior),
        old(settings).color_by_extension@.len() == 0,
        old(settings).color_by_filetype@ == Seq::new(FT_MAX as nat, |i: int| 0u32),
        old(settings).color_by_mode@ == Seq::new(FM_MAX as nat, |i: int| 0u32),
    ensures
        errors_match(
            final(errors)@,
            prior + extension_section_errors(ConfigValue::Table(*entries)) + type_section_errors(
                ConfigValue::Table(*entries),
                false,
                "filetype"@,
            ) + type_section_errors(ConfigValue::Table(*entries), true, "mode"@),
        ),
        forall|ext: Seq<char>| #[trigger]
            final(settings).spec_extension_color(ext) == config_extension_color(
                ConfigValue::Table(*entries),
                ext,
            ),
        final(settings).color_by_filetype@ == config_type_table(
            ConfigValue::Table(*entries),
            false,
            "filetype"@,
        ),
        final(settings).color_by_mode@ == config_type_table(ConfigValue::Table(*entries), true, "mode"@),
        final(settings).color == old(settings).color,
        final(settings).bold == old(settings).bold,
        final(settings).classify == old(settings).classify,
        final(settings).all == old(settings).all,
        final(settings).long == old(settings).long,
        final(settings).one == old(settings).one,
        final(settings).sort_key == old(settings).sort_key,
        final(settings).sort_reverse == old(settings).sort_reverse,
{
    let ghost data = ConfigValue::Table(*entries);
    let ghost x1 = prior + extension_section_errors(data);
    if let Some(i) = find_key(entries, "extension") {
        let (color_map, errs) = load_config_extension(&entries[i].1);
        settings.color_by_extension = color_map;
        append_errors(errors, errs, Ghost(prior), Ghost(extension_section_errors(data)));
    } else {
        assert(x1 =~= prior);
        assert forall|ext: Seq<char>| #[trigger]
            settings.spec_extension_color(ext) == config_extension_color(data, ext) by {}
    }
    let ghost x2 = x1 + type_section_errors(data, false, "filetype"@);
    if let Some(i) = find_key(entries, "filetype") {
        let (table, errs) = load_config_filetype(&entries[i].1);
        settings.color_by_filetype = table;
        append_errors(errors, errs, Ghost(x1), Ghost(type_section_errors(data, false, "filetype"@)));
    } else {
        assert(x2 =~= x1);
    }
    if let Some(i) = find_key(entries, "mode") {
        let (table, errs) = load_config_filemode(&entries[i].1);
        settings.color_by_mode = table;
        append_errors(errors, errs, Ghost(x2), Ghost(type_section_errors(data, true, "mode"@)));
    } else {
        assert(x2 + type_section_errors(data, true, "mode"@) =~= x2);
    }
}

proof fn lemma_errors_concat(
    errs: Seq<ConfigError>,
    n: int,
    a: Seq<(ConfigErrorKind, Seq<char>)>,
    b: Seq<(ConfigErrorKind, Seq<char>)>,
)
    requires
        0 <= n <= errs.len(),
        errors_match(errs.take(n), a),
        errors_match(errs.skip(n), b),
    ensures
        errors_match(errs, a + b),
{
    assert forall|i: int| 0 <= i < errs.len() implies errs[i].kind == (a + b)[i].0
        && errs[i].subject@ == (a + b)[i].1 by {
        if i < n {
            assert(errs.take(n)[i] == errs[i]);
        } else {
            assert(errs.skip(n)[i - n] == errs[i]);
        }
    }
}

/// Reads the settings out of a configuration document: the defaults, with
/// the flags `color`, `bold` and `classify` and the color tables of the
/// sections `extension`, `filetype` and `mode` that the document holds.
/// All errors of the document are returned where it has any.
pub fn load_config_data(data: &ConfigValue) -> (r: Result<Settings, Vec<ConfigError>>)
    ensures
        r is Ok <==> config_errors(*data).len() == 0,
        r matches Err(errs) ==> errors_match(errs@, config_errors(*data)),
        r matches Ok(st) ==> {
            &&& st.color == flag_setting(*data, "color"@, true)
            &&& st.bold == flag_setting(*data, "bold"@, true)
            &&& st.classify == flag_setting(*data, "classify"@, true)
            &&& !st.all
            &&& st.long
            &&& !st.one
            &&& st.sort_key == SortKey::Name
            &&& !st.sort_reverse
            &&& forall|ext: Seq<char>| #[trigger]
                st.spec_extension_color(ext) == config_extension_color(*data, ext)
            &&& st.color_by_filetype@ == config_type_table(*data, false, "filetype"@)
            &&& st.color_by_mode@ == config_type_table(*data, true, "mode"@)
        },
{
    let mut settings = Settings::default();
    let mut errors: Vec<ConfigError> = Vec::new();
    assert(settings.color_by_filetype@ =~= Seq::new(FT_MAX as nat, |i: int| 0u32));
    assert(settings.color_by_mode@ =~= Seq::new(FM_MAX as nat, |i: int| 0u32));
    if let ConfigValue::Table(entries) = data {
        let ghost x0 = Seq::<(ConfigErrorKind, Seq<char>)>::empty();
        read_flag(entries, "color", &mut settings.color, &mut errors, Ghost(x0));
        let ghost x1 = x0 + flag_errors(*data, "color"@);
        read_flag(entries, "bold", &mut settings.bold, &mut errors, Ghost(x1));
        let ghost x2 = x1 + flag_errors(*data, "bold"@);
        read_flag(entries, "classify", &mut settings.classify, &mut errors, Ghost(x2));
        let ghost x3 = x2 + flag_errors(*data, "classify"@);
        read_sections(entries, &mut settings, &mut errors, Ghost(x3));
        assert(x0 + flag_errors(*data, "color"@) =~= flag_errors(*data, "color"@));
        assert(config_errors(*data) == x3 + extension_section_errors(*data) + type_section_errors(
            *data,
            false,
            "filetype"@,
        ) + type_section_errors(*data, true, "mode"@));
    } else {
        assert(config_errors(*data) =~= Seq::empty());
    }
    if errors.len() > 0 {
        Err(errors)
    } else {
        Ok(settings)
    }
}

} // verus!
