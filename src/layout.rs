//! The column layout: how many columns a wide listing gets, and how wide
//! each one is.

use crate::color::{classify, spec_classify};
use crate::entry::Entry;
use crate::settings::Settings;
use vstd::arithmetic::div_mod::lemma_fundamental_div_mod;
use vstd::prelude::*;
use vstd::string::StrSliceExecFns;

verus! {

/// The gap that follows every column but the last.
pub const SPACER: usize = 2;

/// The sum of a sequence of integers.
pub open spec fn seq_sum(s: Seq<int>) -> int
    decreases s.len(),
{
    if s.len() == 0 {
        0
    } else {
        seq_sum(s.drop_last()) + s.last()
    }
}

/// The number of rows that `n` entries take in `c` columns.
pub open spec fn rows_for(n: int, c: int) -> int {
    n / c + if n % c != 0 {
        1int
    } else {
        0
    }
}

/// The room that entry `idx` needs in its column when `c` columns are
/// tried: its width, plus the spacer unless it stands in the last column.
pub open spec fn cell_width(ws: Seq<usize>, c: int, idx: int) -> int {
    if idx / rows_for(ws.len() as int, c) == c - 1 {
        ws[idx] as int
    } else {
        ws[idx] + SPACER
    }
}

/// The width of column `j` when `c` columns are tried, after the first `k`
/// entries were placed: the largest room that one of them in that column
/// needs, or zero.
pub open spec fn col_width_upto(ws: Seq<usize>, c: int, j: int, k: int) -> int
    decreases k,
{
    if k <= 0 {
        0
    } else {
        let prev = col_width_upto(ws, c, j, k - 1);
        if (k - 1) / rows_for(ws.len() as int, c) == j && cell_width(ws, c, k - 1) >= prev {
            cell_width(ws, c, k - 1)
        } else {
            prev
        }
    }
}

/// The column widths when `c` columns are tried, after `k` entries.
pub open spec fn plan_upto(ws: Seq<usize>, c: int, k: int) -> Seq<int> {
    Seq::new(c as nat, |j: int| col_width_upto(ws, c, j, k))
}

/// The column widths when all entries are placed in `c` columns.
pub open spec fn plan_for(ws: Seq<usize>, c: int) -> Seq<int> {
    plan_upto(ws, c, ws.len() as int)
}

/// Whether `c` columns fit in a line of `term_width` characters.
pub open spec fn fits(ws: Seq<usize>, c: int, term_width: int) -> bool {
    seq_sum(plan_for(ws, c)) <= term_width
}

/// The smallest room that an entry needs, spacer included, at most the
/// terminal width; over the first `k` entries.
pub open spec fn min_width_upto(ws: Seq<usize>, term_width: int, k: int) -> int
    decreases k,
{
    if k <= 0 {
        term_width
    } else {
        let prev = min_width_upto(ws, term_width, k - 1);
        if ws[k - 1] + SPACER < prev {
            ws[k - 1] + SPACER
        } else {
            prev
        }
    }
}

pub open spec fn min_width(ws: Seq<usize>, term_width: int) -> int {
    min_width_upto(ws, term_width, ws.len() as int)
}

/// The number of column counts that are tried.
pub open spec fn num_possible(ws: Seq<usize>, term_width: int) -> int {
    if min_width(ws, term_width) == 0 {
        0
    } else {
        term_width / min_width(ws, term_width)
    }
}

/// The largest count of columns, from 1 to `m`, that fits; 0 if none does.
pub open spec fn best_count(ws: Seq<usize>, term_width: int, m: int) -> int
    decreases m,
{
    if m <= 0 {
        0
    } else if fits(ws, m, term_width) {
        m
    } else {
        best_count(ws, term_width, m - 1)
    }
}

/// Whether the layout gives a single column as wide as the terminal,
/// without trying any count of columns.
pub open spec fn single_column(ws: Seq<usize>, term_width: int) -> bool {
    ws.len() <= 1 || num_possible(ws, term_width) <= 1
}

/// The column widths of a wide listing: for the largest count of columns
/// that is tried and fits, the width of each column; otherwise one column
/// as wide as the terminal.
pub open spec fn column_plan(ws: Seq<usize>, term_width: int) -> Seq<int> {
    if single_column(ws, term_width) || best_count(ws, term_width, num_possible(ws, term_width))
        == 0 {
        seq![term_width]
    } else {
        plan_for(ws, best_count(ws, term_width, num_possible(ws, term_width)))
    }
}

proof fn lemma_seq_sum_update(s: Seq<int>, j: int, v: int)
    requires
        0 <= j < s.len(),
    ensures
        seq_sum(s.update(j, v)) == seq_sum(s) - s[j] + v,
    decreases s.len(),
{
    if j < s.len() - 1 {
        assert(s.update(j, v).drop_last() =~= s.drop_last().update(j, v));
        lemma_seq_sum_update(s.drop_last(), j, v);
    } else {
        assert(s.update(j, v).drop_last() =~= s.drop_last());
    }
}

proof fn lemma_seq_sum_mono(a: Seq<int>, b: Seq<int>)
    requires
        a.len() == b.len(),
        forall|j: int| 0 <= j < a.len() ==> a[j] <= b[j],
    ensures
        seq_sum(a) <= seq_sum(b),
    decreases a.len(),
{
    if a.len() > 0 {
        lemma_seq_sum_mono(a.drop_last(), b.drop_last());
    }
}

proof fn lemma_seq_sum_ge_element(s: Seq<int>, j: int)
    requires
        0 <= j < s.len(),
        forall|i: int| 0 <= i < s.len() ==> s[i] >= 0,
    ensures
        seq_sum(s) >= s[j],
    decreases s.len(),
{
    if j < s.len() - 1 {
        lemma_seq_sum_ge_element(s.drop_last(), j);
    } else {
        lemma_seq_sum_nonneg(s.drop_last());
    }
}

proof fn lemma_seq_sum_nonneg(s: Seq<int>)
    requires
        forall|i: int| 0 <= i < s.len() ==> s[i] >= 0,
    ensures
        seq_sum(s) >= 0,
    decreases s.len(),
{
    if s.len() > 0 {
        lemma_seq_sum_nonneg(s.drop_last());
    }
}

proof fn lemma_col_width_nonneg(ws: Seq<usize>, c: int, j: int, k: int)
    ensures
        col_width_upto(ws, c, j, k) >= 0,
    decreases k,
{
    if k > 0 {
        lemma_col_width_nonneg(ws, c, j, k - 1);
    }
}

proof fn lemma_col_width_mono(ws: Seq<usize>, c: int, j: int, k1: int, k2: int)
    requires
        k1 <= k2,
    ensures
        col_width_upto(ws, c, j, k1) <= col_width_upto(ws, c, j, k2),
    decreases k2 - k1,
{
    if k1 < k2 {
        lemma_col_width_mono(ws, c, j, k1, k2 - 1);
    }
}

proof fn lemma_plan_sum_mono(ws: Seq<usize>, c: int, k1: int, k2: int)
    requires
        c >= 0,
        k1 <= k2,
    ensures
        seq_sum(plan_upto(ws, c, k1)) <= seq_sum(plan_upto(ws, c, k2)),
{
    assert forall|j: int| 0 <= j < c implies plan_upto(ws, c, k1)[j] <= plan_upto(ws, c, k2)[j] by {
        lemma_col_width_mono(ws, c, j, k1, k2);
    }
    lemma_seq_sum_mono(plan_upto(ws, c, k1), plan_upto(ws, c, k2));
}

/// Every entry lands in one of the `c` columns.
proof fn lemma_column_in_range(n: int, c: int, idx: int)
    requires
        c >= 1,
        0 <= idx < n,
    ensures
        rows_for(n, c) >= 1,
        0 <= idx / rows_for(n, c) < c,
{
    lemma_fundamental_div_mod(n, c);
    let rows = rows_for(n, c);
    assert(n <= rows * c) by (nonlinear_arith)
        requires
            n == c * (n / c) + n % c,
            0 <= n % c < c,
            rows == n / c + if n % c != 0 {
                1int
            } else {
                0
            },
    ;
    assert(rows >= 1) by (nonlinear_arith)
        requires
            n <= rows * c,
            n >= 1,
            c >= 1,
    ;
    lemma_fundamental_div_mod(idx, rows);
    assert(0 <= idx / rows < c) by (nonlinear_arith)
        requires
            idx == rows * (idx / rows) + idx % rows,
            0 <= idx % rows < rows,
            0 <= idx < n,
            n <= rows * c,
            rows >= 1,
    ;
}

proof fn lemma_plan_step(ws: Seq<usize>, c: int, k: int)
    requires
        c >= 1,
        0 <= k < ws.len(),
    ensures
        plan_upto(ws, c, k + 1) == plan_upto(ws, c, k).update(
            k / rows_for(ws.len() as int, c),
            if cell_width(ws, c, k) >= col_width_upto(ws, c, k / rows_for(ws.len() as int, c), k) {
                cell_width(ws, c, k)
            } else {
                col_width_upto(ws, c, k / rows_for(ws.len() as int, c), k)
            },
        ),
{
    lemma_column_in_range(ws.len() as int, c, k);
    assert(plan_upto(ws, c, k + 1) =~= plan_upto(ws, c, k).update(
        k / rows_for(ws.len() as int, c),
        if cell_width(ws, c, k) >= col_width_upto(ws, c, k / rows_for(ws.len() as int, c), k) {
            cell_width(ws, c, k)
        } else {
            col_width_upto(ws, c, k / rows_for(ws.len() as int, c), k)
        },
    ));
}

proof fn lemma_best_count(ws: Seq<usize>, term_width: int, m: int)
    ensures
        0 <= best_count(ws, term_width, m),
        m >= 0 ==> best_count(ws, term_width, m) <= m,
        best_count(ws, term_width, m) > 0 ==> fits(ws, best_count(ws, term_width, m), term_width),
        forall|c: int| best_count(ws, term_width, m) < c <= m ==> !fits(ws, c, term_width),
    decreases m,
{
    if m > 0 {
        lemma_best_count(ws, term_width, m - 1);
    }
}

/// The state of one tried count of columns.
#[derive(Debug)]
pub struct ColumnInfo {
    /// Whether the columns still fit in a line.
    pub valid: bool,
    /// The sum of the column widths.
    pub line_length: usize,
    pub column_widths: Vec<usize>,
}

impl ColumnInfo {
    /// A count of columns that nothing was placed in yet.
    pub fn new() -> (r: ColumnInfo)
        ensures
            r.valid,
            r.line_length == 0,
            r.column_widths@.len() == 0,
    {
        ColumnInfo { valid: true, line_length: 0, column_widths: Vec::new() }
    }
}

/// What a tried count of `c` columns holds once all entries are placed.
pub open spec fn info_matches(info: ColumnInfo, ws: Seq<usize>, c: int, term_width: int) -> bool {
    &&& info.valid == fits(ws, c, term_width)
    &&& info.valid ==> info.column_widths@.len() == c && forall|j: int|
        0 <= j < c ==> info.column_widths@[j] == plan_for(ws, c)[j]
}

/// Places all entries, column by column, in `c` columns, until the line
/// would be wider than the terminal.
fn simulate_columns(widths: &Vec<usize>, c: usize, term_width: usize) -> (r: ColumnInfo)
    requires
        c >= 1,
    ensures
        info_matches(r, widths@, c as int, term_width as int),
{
    let ghost ws = widths@;
    let n = widths.len();
    assert(n % c != 0 ==> n / c < n) by {
        if n % c != 0 {
            lemma_fundamental_div_mod(n as int, c as int);
            assert(c >= 2);
            assert(n as int / c as int <= n as int / 2) by {
                vstd::arithmetic::div_mod::lemma_div_is_ordered_by_denominator(n as int, 2, c as int);
            }
        }
    }
    let rows = n / c + if n % c != 0 {
        1
    } else {
        0
    };
    let mut info = ColumnInfo::new();
    info.column_widths = vec![0; c];
    let mut idx: usize = 0;
    assert(seq_sum(plan_upto(ws, c as int, 0)) == 0) by {
        assert(plan_upto(ws, c as int, 0) =~= Seq::new(c as nat, |i: int| 0int));
        lemma_seq_sum_zero(c as int);
    }
    while idx < n && info.valid
        invariant
            n == ws.len(),
            ws == widths@,
            c >= 1,
            rows == rows_for(n as int, c as int),
            idx <= n,
            info.column_widths@.len() == c,
            info.valid ==> info.line_length == seq_sum(plan_upto(ws, c as int, idx as int))
                && info.line_length <= term_width && forall|j: int|
                0 <= j < c ==> info.column_widths@[j] == col_width_upto(ws, c as int, j, idx as int),
            !info.valid ==> seq_sum(plan_upto(ws, c as int, idx as int)) > term_width,
        decreases n - idx,
    {
        proof {
            lemma_column_in_range(n as int, c as int, idx as int);
            lemma_plan_step(ws, c as int, idx as int);
            lemma_seq_sum_update(
                plan_upto(ws, c as int, idx as int),
                idx as int / rows_for(n as int, c as int),
                plan_upto(ws, c as int, idx + 1)[idx as int / rows_for(n as int, c as int)],
            );
        }
        let col = idx / rows;
        let w = widths[idx];
        let cell: Option<usize> = if col == c - 1 {
            Some(w)
        } else {
            w.checked_add(SPACER)
        };
        match cell {
            None => {
                proof {
                    let p = plan_upto(ws, c as int, idx + 1);
                    assert forall|j: int| 0 <= j < p.len() implies p[j] >= 0 by {
                        lemma_col_width_nonneg(ws, c as int, j, idx + 1);
                    }
                    lemma_seq_sum_ge_element(p, col as int);
                }
                info.valid = false;
            },
            Some(cell) => {
                let old_width = info.column_widths[col];
                if cell >= old_width {
                    let diff = cell - old_width;
                    if diff > term_width - info.line_length {
                        info.valid = false;
                    } else {
                        info.line_length = info.line_length + diff;
                        info.column_widths.set(col, cell);
                    }
                }
            },
        }
        idx = idx + 1;
    }
    proof {
        lemma_plan_sum_mono(ws, c as int, idx as int, n as int);
    }
    info
}

proof fn lemma_seq_sum_zero(c: int)
    requires
        c >= 0,
    ensures
        seq_sum(Seq::new(c as nat, |i: int| 0int)) == 0,
    decreases c,
{
    if c > 0 {
        assert(Seq::new(c as nat, |i: int| 0int).drop_last() =~= Seq::new((c - 1) as nat, |i: int| 0int));
        lemma_seq_sum_zero(c - 1);
    }
}

/// The smallest room that an entry needs, spacer included, at most the
/// terminal width.
pub fn determine_min_column_width(widths: &Vec<usize>, term_width: usize) -> (r: usize)
    ensures
        r == min_width(widths@, term_width as int),
{
    let mut min_w = term_width;
    let mut i: usize = 0;
    while i < widths.len()
        invariant
            i <= widths@.len(),
            min_w == min_width_upto(widths@, term_width as int, i as int),
        decreases widths.len() - i,
    {
        match widths[i].checked_add(SPACER) {
            Some(w) => {
                if w < min_w {
                    min_w = w;
                }
            },
            None => {},
        }
        i = i + 1;
    }
    min_w
}

/// The column widths of a wide listing whose entries have these display
/// widths, as `column_plan` states them.
pub fn column_widths(widths: &Vec<usize>, term_width: usize) -> (r: Vec<usize>)
    ensures
        r@.len() == column_plan(widths@, term_width as int).len(),
        forall|j: int| 0 <= j < r@.len() ==> r@[j] == column_plan(widths@, term_width as int)[j],
{
    let ghost ws = widths@;
    let ghost t = term_width as int;
    if widths.len() <= 1 {
        return vec![term_width];
    }
    let min_w = determine_min_column_width(widths, term_width);
    if min_w == 0 {
        return vec![term_width];
    }
    let possible = term_width / min_w;
    if possible <= 1 {
        return vec![term_width];
    }
    let mut column_info: Vec<ColumnInfo> = Vec::new();
    let mut u: usize = 0;
    while u < possible
        invariant
            u <= possible,
            ws == widths@,
            t == term_width as int,
            column_info@.len() == u,
            forall|i: int| 0 <= i < u ==> info_matches(#[trigger] column_info@[i], ws, i + 1, t),
        decreases possible - u,
    {
        let info = simulate_columns(widths, u + 1, term_width);
        let ghost pushed = info;
        column_info.push(info);
        assert(column_info@[u as int] == pushed);
        u = u + 1;
    }
    let mut i: usize = possible;
    while i > 0
        invariant
            i <= possible == num_possible(ws, t),
            possible > 1,
            ws == widths@,
            t == term_width as int,
            column_info@.len() == possible,
            best_count(ws, t, possible as int) == best_count(ws, t, i as int),
            ws.len() > 1,
            forall|k: int| 0 <= k < possible ==> info_matches(#[trigger] column_info@[k], ws, k + 1, t),
        decreases i,
    {
        if column_info[i - 1].valid {
            let chosen = column_info.remove(i - 1);
            proof {
                assert(fits(ws, i as int, t));
                assert(best_count(ws, t, i as int) == i);
                assert(!single_column(ws, t));
                assert(column_plan(ws, t) == plan_for(ws, i as int));
                assert(chosen.column_widths@.len() == i);
            }
            return chosen.column_widths;
        }
        i = i - 1;
    }
    vec![term_width]
}

/// The number of characters that an entry takes on screen: its name and
/// its classification mark.
pub open spec fn spec_display_width(e: Entry, s: Settings) -> int {
    e.name@.len() + if spec_classify(e, s) is Some {
        1int
    } else {
        0
    }
}

/// The display widths of a sequence of entries.
pub open spec fn display_widths(entries: Seq<Entry>, s: Settings) -> Seq<usize> {
    Seq::new(entries.len(), |i: int| spec_display_width(entries[i], s) as usize)
}

/// The number of characters that an entry takes on screen.
pub fn display_width(entry: &Entry, settings: &Settings) -> (r: usize)
    requires
        entry.wf(),
    ensures
        r == spec_display_width(*entry, *settings),
{
    let width = entry.name.as_str().unicode_len();
    if classify(entry, settings).is_some() {
        width + 1
    } else {
        width
    }
}

/// The display widths of the entries, in order.
pub fn entry_widths(entries: &Vec<Entry>, settings: &Settings) -> (r: Vec<usize>)
    requires
        forall|i: int| 0 <= i < entries@.len() ==> (#[trigger] entries@[i]).wf(),
    ensures
        r@ == display_widths(entries@, *settings),
{
    let mut r: Vec<usize> = Vec::new();
    let mut i: usize = 0;
    while i < entries.len()
        invariant
            i <= entries@.len(),
            forall|k: int| 0 <= k < entries@.len() ==> (#[trigger] entries@[k]).wf(),
            r@ == display_widths(entries@, *settings).take(i as int),
        decreases entries.len() - i,
    {
        let w = display_width(&entries[i], settings);
        r.push(w);
        assert(r@ =~= display_widths(entries@, *settings).take(i + 1));
        i = i + 1;
    }
    assert(r@ =~= display_widths(entries@, *settings));
    r
}

/// The column widths of a wide listing of these entries.
pub fn determine_column_widths(entries: &Vec<Entry>, settings: &Settings, term_width: usize) -> (r:
    Vec<usize>)
    requires
        forall|i: int| 0 <= i < entries@.len() ==> (#[trigger] entries@[i]).wf(),
    ensures
        r@.len() == column_plan(display_widths(entries@, *settings), term_width as int).len(),
        forall|j: int|
            0 <= j < r@.len() ==> r@[j] == column_plan(
                display_widths(entries@, *settings),
                term_width as int,
            )[j],
{
    let widths = entry_widths(entries, settings);
    column_widths(&widths, term_width)
}

/// The column widths of a layout add up to no more than the terminal width,
/// and with two or more entries no count of columns above the chosen one,
/// among those tried, fits.
pub proof fn lemma_plan_fits_and_is_maximal(ws: Seq<usize>, term_width: int)
    ensures
        seq_sum(column_plan(ws, term_width)) <= term_width,
        ws.len() >= 2 ==> forall|c: int|
            column_plan(ws, term_width).len() < c <= num_possible(ws, term_width) ==> !fits(
                ws,
                c,
                term_width,
            ),
{
    let m = num_possible(ws, term_width);
    lemma_best_count(ws, term_width, m);
    if single_column(ws, term_width) || best_count(ws, term_width, m) == 0 {
        assert(seq![term_width].drop_last() =~= Seq::<int>::empty());
        assert(seq_sum(Seq::<int>::empty()) == 0);
        assert(seq_sum(seq![term_width]) == term_width);
    }
}

/// A single entry gets a single column as wide as the terminal, which holds
/// the entry whenever it is no wider than the terminal.
pub proof fn lemma_single_entry_layout(ws: Seq<usize>, term_width: int)
    requires
        ws.len() == 1,
    ensures
        column_plan(ws, term_width) == seq![term_width],
        ws[0] <= term_width ==> column_plan(ws, term_width)[0] >= ws[0],
{
}

/// A layout has at least one column.
pub proof fn lemma_plan_nonempty(ws: Seq<usize>, term_width: int)
    ensures
        column_plan(ws, term_width).len() >= 1,
{
    lemma_best_count(ws, term_width, num_possible(ws, term_width));
}

} // verus!
