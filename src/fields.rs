//! The fields of a long listing line: size, permissions, attributes and the
//! choice of time format.

use crate::entry::{
    kind_of_mode, FileKind, FILE_ATTRIBUTE_HIDDEN, FILE_ATTRIBUTE_READONLY, FILE_ATTRIBUTE_SYSTEM,
    S_ISGID, S_ISUID, S_ISVTX, kind_from_mode,
};
use crate::text::{decimal, digit_char, push_char, push_decimal};
use vstd::prelude::*;

verus! {

pub open spec fn pow1000(u: nat) -> nat
    decreases u,
{
    if u == 0 {
        1
    } else {
        1000 * pow1000((u - 1) as nat)
    }
}

/// The unit of a size of at least 900 bytes, counted from kilo: the first
/// whose value stays below 900.
pub open spec fn size_unit_from(size: nat, u: nat) -> nat
    decreases 7 - u,
{
    if u >= 7 || size / pow1000(u + 1) < 900 {
        u
    } else {
        size_unit_from(size, u + 1)
    }
}

pub open spec fn unit_char(u: nat) -> char {
    if u == 0 {
        'k'
    } else if u == 1 {
        'M'
    } else if u == 2 {
        'G'
    } else if u == 3 {
        'T'
    } else if u == 4 {
        'P'
    } else if u == 5 {
        'E'
    } else if u == 6 {
        'Z'
    } else {
        'Y'
    }
}

/// A size in tenths of unit `u`, rounded to the nearest, halves up.
pub open spec fn size_tenths(size: nat, u: nat) -> nat {
    let t = 100 * pow1000(u);
    size / t + if 2 * (size % t) >= t {
        1nat
    } else {
        0
    }
}

/// A size as a long listing shows it: below 900 the number of bytes;
/// otherwise the value in the first unit in which it stays below 900, with
/// one decimal, and the unit.
pub open spec fn size_text(size: nat) -> Seq<char> {
    if size < 900 {
        decimal(size)
    } else {
        let u = size_unit_from(size, 0);
        let t = size_tenths(size, u);
        decimal(t / 10) + seq!['.', digit_char(t % 10), ' ', unit_char(u), 'B']
    }
}

/// A size in bytes, made short for reading.
pub fn format_size(size: u64) -> (r: String)
    ensures
        r@ == size_text(size as nat),
{
    let mut s = String::new();
    if size < 900 {
        push_decimal(&mut s, size);
        return s;
    }
    let mut u: usize = 0;
    let mut d: u64 = 1000;
    proof {
        reveal_with_fuel(pow1000, 7);
        assert(pow1000(6) == 1000000000000000000);
    }
    while size / d >= 900
        invariant
            u <= 5,
            d >= 1000,
            d == pow1000((u + 1) as nat),
            size >= 900,
            size_unit_from(size as nat, 0) == size_unit_from(size as nat, u as nat),
            pow1000(6) == 1000000000000000000,
        decreases 5 - u,
    {
        proof {
            reveal_with_fuel(pow1000, 7);
            if u == 5 {
                vstd::arithmetic::div_mod::lemma_div_is_ordered(
                    size as int,
                    u64::MAX as int,
                    d as int,
                );
                assert(size / d < 900);
            }
        }
        u = u + 1;
        d = d * 1000;
    }
    proof {
        reveal_with_fuel(pow1000, 7);
    }
    let t = d / 10;
    assert(t == 100 * pow1000(u as nat));
    let q = size / t;
    let r = size % t;
    proof {
        vstd::arithmetic::div_mod::lemma_div_is_ordered_by_denominator(size as int, 2, t as int);
    }
    let tenths = q + if r >= t - r {
        1
    } else {
        0
    };
    push_decimal(&mut s, tenths / 10);
    push_char(&mut s, '.');
    push_char(&mut s, (48 + (tenths % 10) as u8) as char);
    push_char(&mut s, ' ');
    let unit = if u == 0 {
        'k'
    } else if u == 1 {
        'M'
    } else if u == 2 {
        'G'
    } else if u == 3 {
        'T'
    } else if u == 4 {
        'P'
    } else {
        'E'
    };
    push_char(&mut s, unit);
    push_char(&mut s, 'B');
    assert(s@ =~= size_text(size as nat));
    s
}

/// The first character of a permission string: the file type.
pub open spec fn type_char(mode: u32) -> char {
    match kind_of_mode(mode) {
        FileKind::File => '-',
        FileKind::Directory => 'd',
        FileKind::Symlink => 'l',
        FileKind::BlockDevice => 'b',
        FileKind::CharDevice => 'c',
        FileKind::Fifo => 'p',
        FileKind::Socket => 's',
    }
}

/// `c` where the bit is set, else a dash.
pub open spec fn flag_char(mode: u32, bit: u32, c: char) -> char {
    if mode & bit == bit {
        c
    } else {
        '-'
    }
}

/// The execute position, which also shows a special bit: `x` or `set`
/// with execute permission, `-` or `unset` without.
pub open spec fn exec_char(mode: u32, xbit: u32, special: u32, set: char, unset: char) -> char {
    if mode & xbit == xbit {
        if mode & special == special {
            set
        } else {
            'x'
        }
    } else {
        if mode & special == special {
            unset
        } else {
            '-'
        }
    }
}

/// The ten-character permission string of a Unix mode.
pub open spec fn permission_text(mode: u32) -> Seq<char> {
    seq![
        type_char(mode),
        flag_char(mode, 0o400, 'r'),
        flag_char(mode, 0o200, 'w'),
        exec_char(mode, 0o100, S_ISUID, 's', 'S'),
        flag_char(mode, 0o40, 'r'),
        flag_char(mode, 0o20, 'w'),
        exec_char(mode, 0o10, S_ISGID, 's', 'S'),
        flag_char(mode, 0o4, 'r'),
        flag_char(mode, 0o2, 'w'),
        exec_char(mode, 0o1, S_ISVTX, 't', 'T'),
    ]
}

fn flag(mode: u32, bit: u32, c: char) -> (r: char)
    ensures
        r == flag_char(mode, bit, c),
{
    if mode & bit == bit {
        c
    } else {
        '-'
    }
}

fn exec_flag(mode: u32, xbit: u32, special: u32, set: char, unset: char) -> (r: char)
    ensures
        r == exec_char(mode, xbit, special, set, unset),
{
    if mode & xbit == xbit {
        if mode & special == special {
            set
        } else {
            'x'
        }
    } else {
        if mode & special == special {
            unset
        } else {
            '-'
        }
    }
}

/// The permission string of a Unix mode, as `ls -l` shows it.
pub fn format_permissions(mode: u32) -> (r: String)
    ensures
        r@ == permission_text(mode),
{
    let mut s = String::new();
    let t = match kind_from_mode(mode) {
        FileKind::File => '-',
        FileKind::Directory => 'd',
        FileKind::Symlink => 'l',
        FileKind::BlockDevice => 'b',
        FileKind::CharDevice => 'c',
        FileKind::Fifo => 'p',
        FileKind::Socket => 's',
    };
    push_char(&mut s, t);
    push_char(&mut s, flag(mode, 0o400, 'r'));
    push_char(&mut s, flag(mode, 0o200, 'w'));
    push_char(&mut s, exec_flag(mode, 0o100, S_ISUID, 's', 'S'));
    push_char(&mut s, flag(mode, 0o40, 'r'));
    push_char(&mut s, flag(mode, 0o20, 'w'));
    push_char(&mut s, exec_flag(mode, 0o10, S_ISGID, 's', 'S'));
    push_char(&mut s, flag(mode, 0o4, 'r'));
    push_char(&mut s, flag(mode, 0o2, 'w'));
    push_char(&mut s, exec_flag(mode, 0o1, S_ISVTX, 't', 'T'));
    assert(s@ =~= permission_text(mode));
    s
}

/// `c` where the attribute bit is set, else a space.
pub open spec fn attribute_char(attribs: u32, bit: u32, c: char) -> char {
    if attribs & bit != 0 {
        c
    } else {
        ' '
    }
}

/// The read-only, hidden and system attributes as three characters.
pub open spec fn attribute_text(attribs: u32) -> Seq<char> {
    seq![
        attribute_char(attribs, FILE_ATTRIBUTE_READONLY, 'R'),
        attribute_char(attribs, FILE_ATTRIBUTE_HIDDEN, 'H'),
        attribute_char(attribs, FILE_ATTRIBUTE_SYSTEM, 'S'),
    ]
}

/// The read-only, hidden and system attributes of a file.
pub fn format_attributes(attribs: u32) -> (r: String)
    ensures
        r@ == attribute_text(attribs),
{
    let mut s = String::new();
    push_char(
        &mut s,
        if attribs & FILE_ATTRIBUTE_READONLY != 0 {
            'R'
        } else {
            ' '
        },
    );
    push_char(
        &mut s,
        if attribs & FILE_ATTRIBUTE_HIDDEN != 0 {
            'H'
        } else {
            ' '
        },
    );
    push_char(
        &mut s,
        if attribs & FILE_ATTRIBUTE_SYSTEM != 0 {
            'S'
        } else {
            ' '
        },
    );
    assert(s@ =~= attribute_text(attribs));
    s
}

/// Whether a long listing shows a time as month, day and clock time rather
/// than month, day and year: when it lies in the current year or less than
/// 90 days before now (`days_since` counts whole days from now, negative in
/// the past).
pub fn recent_time(year: i32, current_year: i32, days_since: i64) -> (r: bool)
    ensures
        r == (year == current_year || days_since >= -90),
{
    year == current_year || days_since >= -90
}

} // verus!
