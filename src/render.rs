//! The text of a listing: one line per entry in the long format, or rows of
//! columns in the wide format.

use crate::color::{classify, colorize, escape_of, reset_escape, spec_classify, spec_resolve_color};
use crate::entry::{Entry, FileKind};
use crate::fields::{attribute_text, format_attributes, format_permissions, format_size, permission_text, size_text};
use crate::layout::{
    column_plan, determine_column_widths, display_width, display_widths, lemma_plan_nonempty,
    rows_for, spec_display_width,
};
use crate::settings::Settings;
use crate::text::push_char;
use vstd::arithmetic::div_mod::lemma_fundamental_div_mod;
use vstd::prelude::*;
use vstd::string::{StrSliceExecFns, StringExecFns};

verus! {

/// `n` spaces.
pub open spec fn spaces(n: int) -> Seq<char> {
    Seq::new(n as nat, |i: int| ' ')
}

/// Appends `n` spaces.
pub fn push_spaces(s: &mut String, n: usize)
    ensures
        final(s)@ == old(s)@ + spaces(n as int),
{
    let mut i: usize = 0;
    while i < n
        invariant
            i <= n,
            s@ == old(s)@ + spaces(i as int),
        decreases n - i,
    {
        push_char(s, ' ');
        assert(s@ =~= old(s)@ + spaces(i + 1));
        i = i + 1;
    }
}

/// The name of an entry, wrapped in the escape sequences of its style when
/// it has one.
pub open spec fn colored_name(e: Entry, s: Settings) -> Seq<char> {
    match spec_resolve_color(e, s) {
        Some((code, bold)) => escape_of(code, bold) + e.name@ + reset_escape(),
        None => e.name@,
    }
}

/// The name of an entry as a wide listing shows it: styled, then its
/// classification mark.
pub open spec fn wide_text(e: Entry, s: Settings) -> Seq<char> {
    colored_name(e, s) + match spec_classify(e, s) {
        Some(m) => seq![m],
        None => Seq::empty(),
    }
}

fn push_colored_name(buf: &mut String, entry: &Entry, settings: &Settings)
    ensures
        final(buf)@ == old(buf)@ + colored_name(*entry, *settings),
{
    match colorize(entry, settings) {
        Some(color_str) => {
            buf.append(color_str.as_str());
            buf.append(entry.name.as_str());
            push_char(buf, '\x1b');
            push_char(buf, '[');
            push_char(buf, '0');
            push_char(buf, 'm');
            assert(buf@ =~= old(buf)@ + colored_name(*entry, *settings));
        },
        None => {
            buf.append(entry.name.as_str());
        },
    }
}

/// The name of an entry as a wide listing shows it.
pub fn format_wide_entry(entry: &Entry, settings: &Settings) -> (r: String)
    ensures
        r@ == wide_text(*entry, *settings),
{
    let mut buf = String::new();
    push_colored_name(&mut buf, entry, settings);
    if let Some(token) = classify(entry, settings) {
        push_char(&mut buf, token);
    }
    assert(buf@ =~= wide_text(*entry, *settings));
    buf
}

/// What follows the padding of an entry in its column.
pub open spec fn pad_width(column_width: int, entry_width: int) -> int {
    if column_width > entry_width {
        column_width - entry_width
    } else {
        0
    }
}

/// A row of a wide listing from entry `i`, which stands in column `col`:
/// the entry, then, unless the row ends there, the padding to its column's
/// width and the rest of the row. The row ends after the last entry, after
/// the last column, and before a column of width zero.
pub open spec fn wide_line_from(
    es: Seq<Entry>,
    s: Settings,
    plan: Seq<int>,
    rows: int,
    i: int,
    col: int,
) -> Seq<char>
    decreases plan.len() - col,
{
    let text = wide_text(es[i], s);
    if i + rows >= es.len() || col + 1 >= plan.len() || col < 0 || plan[col + 1] == 0 {
        text
    } else {
        text + spaces(pad_width(plan[col], spec_display_width(es[i], s))) + wide_line_from(
            es,
            s,
            plan,
            rows,
            i + rows,
            col + 1,
        )
    }
}

/// The rows of a wide listing: entries fill each column top to bottom,
/// columns left to right, in the layout that `column_plan` gives.
pub open spec fn wide_listing(es: Seq<Entry>, s: Settings, term_width: int) -> Seq<Seq<char>> {
    let plan = column_plan(display_widths(es, s), term_width);
    let rows = rows_for(es.len() as int, plan.len() as int);
    if es.len() == 0 {
        Seq::empty()
    } else {
        Seq::new(rows as nat, |r: int| wide_line_from(es, s, plan, rows, r, 0))
    }
}

proof fn lemma_rows_bounds(n: int, k: int)
    requires
        n >= 1,
        k >= 1,
    ensures
        1 <= rows_for(n, k) <= n,
{
    lemma_fundamental_div_mod(n, k);
    let q = n / k;
    let r = n % k;
    if r != 0 {
        assert(q + 1 <= n) by (nonlinear_arith)
            requires
                n == k * q + r,
                0 < r < k,
                q >= 0,
        ;
    } else {
        assert(1 <= q <= n) by (nonlinear_arith)
            requires
                n == k * q,
                n >= 1,
                k >= 1,
        ;
    }
}

/// The rows of a wide listing of the entries, for a terminal of this width.
pub fn show_wide_listing(entries: &Vec<Entry>, settings: &Settings, term_width: usize) -> (r: Vec<
    String,
>)
    requires
        forall|i: int| 0 <= i < entries@.len() ==> (#[trigger] entries@[i]).wf(),
    ensures
        r@.len() == wide_listing(entries@, *settings, term_width as int).len(),
        forall|j: int|
            0 <= j < r@.len() ==> r@[j]@ == wide_listing(entries@, *settings, term_width as int)[j],
{
    let ghost es = entries@;
    let ghost s = *settings;
    let mut lines: Vec<String> = Vec::new();
    let n = entries.len();
    if n == 0 {
        return lines;
    }
    let column_widths = determine_column_widths(entries, settings, term_width);
    let ghost plan = column_plan(display_widths(es, s), term_width as int);
    proof {
        lemma_plan_nonempty(display_widths(es, s), term_width as int);
        assert(column_widths@.len() >= 1);
    }
    let k = column_widths.len();
    proof {
        lemma_rows_bounds(n as int, k as int);
    }
    let num_lines = n / k + if n % k != 0 {
        1
    } else {
        0
    };
    proof {
        lemma_rows_bounds(n as int, k as int);
    }
    let mut line: usize = 0;
    while line < num_lines
        invariant
            es == entries@,
            s == *settings,
            n == es.len() >= 1,
            k == plan.len() == column_widths@.len() >= 1,
            forall|j: int| 0 <= j < k ==> column_widths@[j] == plan[j],
            forall|i: int| 0 <= i < n ==> (#[trigger] es[i]).wf(),
            plan == column_plan(display_widths(es, s), term_width as int),
            num_lines == rows_for(n as int, k as int),
            1 <= num_lines <= n,
            line <= num_lines,
            lines@.len() == line,
            forall|j: int| 0 <= j < line ==> lines@[j]@ == wide_listing(es, s, term_width as int)[j],
        decreases num_lines - line,
    {
        let mut buf = String::new();
        let mut col: usize = 0;
        let mut i: usize = line;
        let mut done = false;
        while !done
            invariant
                es == entries@,
                s == *settings,
                n == es.len(),
                k == plan.len() == column_widths@.len() >= 1,
                forall|j: int| 0 <= j < k ==> column_widths@[j] == plan[j],
                forall|j: int| 0 <= j < n ==> (#[trigger] es[j]).wf(),
                num_lines == rows_for(n as int, k as int),
                line < num_lines <= n,
                col <= k,
                !done ==> i < n && col < k && buf@ + wide_line_from(
                    es,
                    s,
                    plan,
                    num_lines as int,
                    i as int,
                    col as int,
                ) == wide_line_from(es, s, plan, num_lines as int, line as int, 0),
                done ==> buf@ == wide_line_from(es, s, plan, num_lines as int, line as int, 0),
            decreases k - col,
        {
            let ghost before = buf@;
            let entry = &entries[i];
            let text = format_wide_entry(entry, settings);
            buf.append(text.as_str());
            let column_width = column_widths[col];
            col = col + 1;
            if num_lines >= n - i || col >= k || column_widths[col] == 0 {
                done = true;
            } else {
                let w = display_width(entry, settings);
                if column_width > w {
                    push_spaces(&mut buf, column_width - w);
                }
                proof {
                    assert(buf@ =~= before + wide_text(es[i as int], s) + spaces(
                        pad_width(plan[col - 1], spec_display_width(es[i as int], s)),
                    ));
                }
                i = i + num_lines;
            }
        }
        lines.push(buf);
        line = line + 1;
    }
    lines
}

/// A listing of no entries has no rows; one of a single entry has a single
/// row that holds just that entry.
pub proof fn lemma_wide_listing_small(es: Seq<Entry>, s: Settings, term_width: int)
    ensures
        es.len() == 0 ==> wide_listing(es, s, term_width).len() == 0,
        es.len() == 1 ==> wide_listing(es, s, term_width) == seq![wide_text(es[0], s)],
{
    if es.len() == 1 {
        let plan = column_plan(display_widths(es, s), term_width);
        assert(plan == seq![term_width]);
        assert(rows_for(1, 1) == 1);
        assert(wide_listing(es, s, term_width) =~= seq![wide_text(es[0], s)]);
    }
}

/// `x` padded on the left with spaces to `w` characters.
pub open spec fn right_aligned(x: Seq<char>, w: int) -> Seq<char> {
    if x.len() < w {
        spaces(w - x.len()) + x
    } else {
        x
    }
}

pub open spec fn gap() -> Seq<char> {
    seq![' ', ' ']
}

/// The size column: `<DIR>` centred for a directory, else the short size,
/// right-aligned in eight characters.
pub open spec fn size_field(e: Entry) -> Seq<char> {
    if e.spec_is_dir() {
        seq![' ', '<', 'D', 'I', 'R', '>', ' ', ' ']
    } else {
        right_aligned(size_text(e.size as nat), 8)
    }
}

/// The permission column where there is a Unix mode; else the attribute
/// column where there are attributes and all entries are shown; else none.
pub open spec fn mode_field(e: Entry, s: Settings) -> Seq<char> {
    match e.mode {
        Some(m) => permission_text(m) + gap(),
        None => match e.attributes {
            Some(a) => if s.all {
                attribute_text(a) + gap()
            } else {
                Seq::empty()
            },
            None => Seq::empty(),
        },
    }
}

pub open spec fn mark_text(e: Entry, s: Settings) -> Seq<char> {
    match spec_classify(e, s) {
        Some(m) => seq![m],
        None => Seq::empty(),
    }
}

/// ` -> target` for a symbolic link whose target is known.
pub open spec fn link_text(e: Entry) -> Seq<char> {
    match e.link_target {
        Some(t) => if e.kind == FileKind::Symlink {
            seq![' ', '-', '>', ' '] + t@
        } else {
            Seq::empty()
        },
        None => Seq::empty(),
    }
}

/// The line of an entry in a long listing, given its formatted time: the
/// name alone in the one-name-per-line mode; else time, permissions or
/// attributes, size, styled name, classification mark and link target.
pub open spec fn long_line(e: Entry, s: Settings, time: Seq<char>) -> Seq<char> {
    if s.one {
        e.name@
    } else {
        time + gap() + mode_field(e, s) + size_field(e) + gap() + colored_name(e, s) + mark_text(e, s)
            + link_text(e)
    }
}

/// The line of an entry in a long listing, given its formatted time.
pub fn format_entry(entry: &Entry, settings: &Settings, time_str: &str) -> (r: String)
    ensures
        r@ == long_line(*entry, *settings, time_str@),
{
    if settings.one {
        return entry.name.clone();
    }
    let mut buf = String::from_str(time_str);
    buf.append("  ");
    proof {
        reveal_strlit("  ");
        assert("  "@ =~= gap());
    }
    let ghost start = buf@;
    match entry.mode {
        Some(m) => {
            let perms = format_permissions(m);
            buf.append(perms.as_str());
            buf.append("  ");
        },
        None => {
            if let Some(a) = entry.attributes {
                if settings.all {
                    let attrs = format_attributes(a);
                    buf.append(attrs.as_str());
                    buf.append("  ");
                }
            }
        },
    }
    assert(buf@ =~= start + mode_field(*entry, *settings));
    let ghost after_mode = buf@;
    if entry.is_dir() {
        buf.append(" <DIR>  ");
        proof {
            reveal_strlit(" <DIR>  ");
            assert(" <DIR>  "@ =~= seq![' ', '<', 'D', 'I', 'R', '>', ' ', ' ']);
        }
    } else {
        let size_str = format_size(entry.size);
        let len = size_str.as_str().unicode_len();
        if len < 8 {
            push_spaces(&mut buf, 8 - len);
        }
        buf.append(size_str.as_str());
    }
    assert(buf@ =~= after_mode + size_field(*entry));
    buf.append("  ");
    push_colored_name(&mut buf, entry, settings);
    if let Some(token) = classify(entry, settings) {
        push_char(&mut buf, token);
    }
    let ghost before_link = buf@;
    if entry.kind == FileKind::Symlink {
        if let Some(target) = &entry.link_target {
            buf.append(" -> ");
            proof {
                reveal_strlit(" -> ");
                assert(" -> "@ =~= seq![' ', '-', '>', ' ']);
            }
            buf.append(target.as_str());
        }
    }
    assert(buf@ =~= before_link + link_text(*entry));
    assert(buf@ =~= long_line(*entry, *settings, time_str@));
    buf
}

/// Whether a listing shows an entry: all are shown, or it is not hidden.
pub open spec fn shown(e: Entry, s: Settings) -> bool {
    s.all || !e.spec_is_hidden()
}

/// The positions of the entries that a listing shows, in order.
pub open spec fn shown_indices(es: Seq<Entry>, s: Settings) -> Seq<int>
    decreases es.len(),
{
    if es.len() == 0 {
        Seq::empty()
    } else if shown(es.last(), s) {
        shown_indices(es.drop_last(), s).push(es.len() - 1)
    } else {
        shown_indices(es.drop_last(), s)
    }
}

/// The lines of a listing of entries, each with its formatted time: the
/// shown entries, in the wide format or one line each in the long format.
pub open spec fn listing(es: Seq<Entry>, times: Seq<Seq<char>>, s: Settings, term_width: int) -> Seq<
    Seq<char>,
> {
    let idx = shown_indices(es, s);
    let vis = Seq::new(idx.len(), |i: int| es[idx[i]]);
    if !s.long {
        wide_listing(vis, s, term_width)
    } else {
        Seq::new(idx.len(), |i: int| long_line(es[idx[i]], s, times[idx[i]]))
    }
}

proof fn lemma_shown_indices_prefix(es: Seq<Entry>, s: Settings, k: int)
    requires
        0 <= k < es.len(),
    ensures
        shown_indices(es.take(k + 1), s) == if shown(es[k], s) {
            shown_indices(es.take(k), s).push(k)
        } else {
            shown_indices(es.take(k), s)
        },
{
    assert(es.take(k + 1).drop_last() =~= es.take(k));
}

/// The entries and times collected so far are those at the positions `idx`.
spec fn collected(
    visible: Seq<Entry>,
    visible_times: Seq<String>,
    es: Seq<Entry>,
    ts: Seq<Seq<char>>,
    idx: Seq<int>,
) -> bool {
    &&& visible.len() == visible_times.len() == idx.len()
    &&& forall|i: int|
        0 <= i < visible.len() ==> visible[i] == es[idx[i]] && visible_times[i]@ == ts[idx[i]]
}

/// The lines of a listing of the entries, given the formatted time of each
/// one, for a terminal of this width.
pub fn show_listing(
    entries: &Vec<Entry>,
    settings: &Settings,
    term_width: usize,
    times: &Vec<String>,
) -> (r: Vec<String>)
    requires
        times@.len() == entries@.len(),
        forall|i: int| 0 <= i < entries@.len() ==> (#[trigger] entries@[i]).wf(),
    ensures
        r@.len() == listing(
            entries@,
            times@.map_values(|t: String| t@),
            *settings,
            term_width as int,
        ).len(),
        forall|j: int|
            0 <= j < r@.len() ==> r@[j]@ == listing(
                entries@,
                times@.map_values(|t: String| t@),
                *settings,
                term_width as int,
            )[j],
{
    let ghost es = entries@;
    let ghost ts = times@.map_values(|t: String| t@);
    let ghost s = *settings;
    let mut visible: Vec<Entry> = Vec::new();
    let mut visible_times: Vec<String> = Vec::new();
    let mut k: usize = 0;
    assert(es.take(0) =~= Seq::<Entry>::empty());
    while k < entries.len()
        invariant
            es == entries@,
            s == *settings,
            ts == times@.map_values(|t: String| t@),
            times@.len() == es.len(),
            k <= es.len(),
            forall|i: int| 0 <= i < es.len() ==> (#[trigger] es[i]).wf(),
            forall|i: int|
                0 <= i < visible@.len() ==> 0 <= #[trigger] shown_indices(es.take(k as int), s)[i] < k,
            collected(visible@, visible_times@, es, ts, shown_indices(es.take(k as int), s)),
        decreases es.len() - k,
    {
        proof {
            lemma_shown_indices_prefix(es, s, k as int);
            assert(es.take(k + 1)[k as int] == es[k as int]);
        }
        let e = &entries[k];
        let ghost old_idx = shown_indices(es.take(k as int), s);
        let ghost old_visible = visible@;
        let ghost old_times = visible_times@;
        if settings.all || !e.is_hidden() {
            visible.push(e.duplicate());
            visible_times.push(times[k].clone());
            proof {
                let new_idx = shown_indices(es.take(k + 1), s);
                assert(new_idx == old_idx.push(k as int));
                assert forall|i: int| 0 <= i < visible@.len() implies visible@[i] == es[new_idx[i]]
                    && visible_times@[i]@ == ts[new_idx[i]] by {
                    if i < old_visible.len() {
                        assert(visible@[i] == old_visible[i]);
                        assert(visible_times@[i] == old_times[i]);
                        assert(new_idx[i] == old_idx[i]);
                    } else {
                        assert(ts[k as int] == times@[k as int]@);
                    }
                }
            }
        } else {
            assert(shown_indices(es.take(k + 1), s) == old_idx);
        }
        k = k + 1;
    }
    proof {
        assert(es.take(es.len() as int) =~= es);
    }
    let ghost idx = shown_indices(es, s);
    assert(visible@ =~= Seq::new(idx.len(), |i: int| es[idx[i]]));
    if !settings.long {
        return show_wide_listing(&visible, settings, term_width);
    }
    let mut lines: Vec<String> = Vec::new();
    let mut i: usize = 0;
    while i < visible.len()
        invariant
            es == entries@,
            s == *settings,
            s.long,
            idx == shown_indices(es, s),
            visible@.len() == visible_times@.len() == idx.len(),
            forall|j: int|
                0 <= j < visible@.len() ==> #[trigger] visible@[j] == es[idx[j]]
                    && visible_times@[j]@ == ts[idx[j]],
            i <= visible@.len(),
            lines@.len() == i,
            forall|j: int| 0 <= j < i ==> lines@[j]@ == listing(es, ts, s, term_width as int)[j],
        decreases visible.len() - i,
    {
        let line = format_entry(&visible[i], settings, visible_times[i].as_str());
        lines.push(line);
        i = i + 1;
    }
    lines
}

} // verus!
