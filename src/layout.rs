use vstd::prelude::*;

use crate::entry::Entry;
use vstd::arithmetic::div_mod::lemma_fundamental_div_mod;

verus! {

/// Sum of the visible widths of all entries.
pub open spec fn widths_sum(s: Seq<Entry>) -> nat
    decreases s.len(),
{
    if s.len() == 0 {
        0
    } else {
        widths_sum(s.drop_last()) + s.last().width()
    }
}

/// Largest visible width among the entries, zero when there are none.
pub open spec fn max_width(s: Seq<Entry>) -> nat
    decreases s.len(),
{
    if s.len() == 0 {
        0
    } else {
        let m = max_width(s.drop_last());
        let w = s.last().width();
        if w > m {
            w
        } else {
            m
        }
    }
}

/// Width of all entries printed on one line, one separator between each two.
pub open spec fn flattened_width(s: Seq<Entry>, sep_w: nat) -> nat {
    if s.len() == 0 {
        0
    } else {
        widths_sum(s) + sep_w * (s.len() - 1) as nat
    }
}

pub open spec fn ceil_div(a: nat, b: nat) -> nat {
    if a % b == 0 {
        a / b
    } else {
        a / b + 1
    }
}

/// How many columns of `max_w`-wide cells, each followed by a separator,
/// fit the terminal; never fewer than one.
pub open spec fn columns_for(term_w: nat, max_w: nat, sep_w: nat) -> nat {
    let c = term_w / (max_w + sep_w);
    if c == 0 {
        1
    } else {
        c
    }
}

/// The aggregate measurements of a batch that the layout decision needs.
pub struct Metrics {
    pub count: usize,
    pub flattened_width: usize,
    pub max_entry_width: usize,
}

/// The arrangement chosen for a batch.
#[derive(PartialEq, Eq, Structural, Debug, Clone, Copy)]
pub enum Layout {
    Empty,
    SingleLine,
    Grid { columns: usize, rows: usize },
}

pub open spec fn layout_for(count: nat, flat: nat, max_w: nat, sep_w: nat, term_w: nat) -> Layout {
    if count == 0 {
        Layout::Empty
    } else {
        let c = columns_for(term_w, max_w, sep_w);
        if flat <= term_w || count <= c {
            Layout::SingleLine
        } else {
            Layout::Grid { columns: c as usize, rows: ceil_div(count, c) as usize }
        }
    }
}

/// The layout of a whole batch of entries.
pub open spec fn batch_layout(s: Seq<Entry>, sep_w: nat, term_w: nat) -> Layout {
    layout_for(s.len(), flattened_width(s, sep_w), max_width(s), sep_w, term_w)
}

/// Number of cells in row `k` of a grid of `count` cells filled row by row,
/// `c` to a row.
pub open spec fn row_len(count: nat, c: nat, k: nat) -> nat {
    if count <= k * c {
        0
    } else if count - k * c < c {
        (count - k * c) as nat
    } else {
        c
    }
}

/// The indices that row `k` holds: row-major, so cell `j` holds `k * c + j`.
pub open spec fn grid_row(count: nat, c: nat, k: nat) -> Seq<usize> {
    Seq::new(row_len(count, c, k), |j: int| (k * c + j) as usize)
}

pub proof fn lemma_widths_sum_prefix(s: Seq<Entry>, i: int)
    requires
        0 <= i <= s.len(),
    ensures
        widths_sum(s.take(i)) <= widths_sum(s),
    decreases s.len(),
{
    if i < s.len() {
        assert(s.drop_last().take(i) == s.take(i));
        lemma_widths_sum_prefix(s.drop_last(), i);
    } else {
        assert(s.take(i) == s);
    }
}

pub proof fn lemma_max_width_bounds(s: Seq<Entry>, i: int)
    requires
        0 <= i < s.len(),
    ensures
        s[i].width() <= max_width(s),
    decreases s.len(),
{
    if i < s.len() - 1 {
        lemma_max_width_bounds(s.drop_last(), i);
    }
}

/// Measures a batch: its count, its flattened width with separators of
/// `separator_width` columns, and its widest entry.
pub fn get_metrics(entries: &Vec<Entry>, separator_width: usize) -> (r: Metrics)
    requires
        flattened_width(entries@, separator_width as nat) <= usize::MAX,
    ensures
        r.count == entries@.len(),
        r.flattened_width == flattened_width(entries@, separator_width as nat),
        r.max_entry_width == max_width(entries@),
{
    let n: usize = entries.len();
    let mut total: usize = 0;
    let mut sum: usize = 0;
    let mut longest: usize = 0;
    let mut i: usize = 0;
    while i < n
        invariant
            n == entries@.len(),
            0 <= i <= n,
            flattened_width(entries@, separator_width as nat) <= usize::MAX,
            sum == widths_sum(entries@.take(i as int)),
            total == flattened_width(entries@.take(i as int), separator_width as nat),
            longest == max_width(entries@.take(i as int)),
        decreases n - i,
    {
        let ghost pre = entries@.take(i as int);
        let ghost next = entries@.take(i + 1);
        assert(next.drop_last() == pre);
        assert(next.last() == entries@[i as int]);
        let w: usize = entries[i].visible_width();
        assert(widths_sum(next) == widths_sum(pre) + w);
        proof {
            lemma_widths_sum_prefix(entries@, i + 1);
            if i > 0 {
                assert(separator_width * (i as nat) == separator_width * ((i - 1) as nat) + separator_width)
                    by (nonlinear_arith)
                    requires i > 0;
            }
            assert(separator_width * (i as nat) <= separator_width * ((n - 1) as nat))
                by (nonlinear_arith)
                requires i <= n - 1;
        }
        sum = sum + w;
        if i == 0 {
            total = w;
        } else {
            total = total + separator_width + w;
        }
        if longest < w {
            longest = w;
        }
        i = i + 1;
    }
    assert(entries@.take(n as int) == entries@);
    Metrics { count: n, flattened_width: total, max_entry_width: longest }
}

proof fn lemma_flattened_prefix(s: Seq<Entry>, sep_w: nat, i: int)
    requires
        0 <= i <= s.len(),
    ensures
        flattened_width(s.take(i), sep_w) <= flattened_width(s, sep_w),
{
    lemma_widths_sum_prefix(s, i);
    if i > 0 {
        let a: int = i - 1;
        let b: int = s.len() - 1;
        assert(sep_w * a <= sep_w * b) by (nonlinear_arith)
            requires
                0 <= a <= b,
                sep_w >= 0,
        ;
        assert(s.take(i).len() == i);
    }
}

/// Whether the flattened width of a batch fits a machine word, as
/// measuring and laying it out need.
pub fn measurable(entries: &Vec<Entry>, separator_width: usize) -> (r: bool)
    ensures
        r == (flattened_width(entries@, separator_width as nat) <= usize::MAX),
{
    let n: usize = entries.len();
    let mut total: usize = 0;
    let mut i: usize = 0;
    while i < n
        invariant
            n == entries@.len(),
            0 <= i <= n,
            total == flattened_width(entries@.take(i as int), separator_width as nat),
        decreases n - i,
    {
        let ghost pre = entries@.take(i as int);
        let ghost next = entries@.take(i + 1);
        assert(next.drop_last() == pre);
        assert(next.last() == entries@[i as int]);
        let w: usize = entries[i].visible_width();
        assert(widths_sum(next) == widths_sum(pre) + w);
        proof {
            lemma_flattened_prefix(entries@, separator_width as nat, i + 1);
            if i > 0 {
                assert(separator_width * (i as nat) == separator_width * ((i - 1) as nat) + separator_width)
                    by (nonlinear_arith)
                    requires i > 0;
            }
            assert(next.len() == i + 1);
            assert(flattened_width(next, separator_width as nat) == widths_sum(next) + separator_width * (i as nat));
            if i > 0 {
                assert(total == widths_sum(pre) + separator_width * ((i - 1) as nat));
            }
        }
        let step: Option<usize> = if i == 0 {
            Some(w)
        } else {
            match total.checked_add(separator_width) {
                Some(t) => t.checked_add(w),
                None => None,
            }
        };
        match step {
            Some(t) => {
                total = t;
            },
            None => {
                return false;
            },
        }
        i = i + 1;
    }
    assert(entries@.take(n as int) == entries@);
    true
}

/// How many columns fit a terminal `terminal_width` columns wide when each
/// cell is `max_entry_width` wide and followed by `separator_width` columns.
pub fn columns(terminal_width: usize, max_entry_width: usize, separator_width: usize) -> (r: usize)
    requires
        max_entry_width + separator_width > 0,
    ensures
        r == columns_for(terminal_width as nat, max_entry_width as nat, separator_width as nat),
        r >= 1,
{
    match max_entry_width.checked_add(separator_width) {
        None => {
            assert((terminal_width as nat) / ((max_entry_width + separator_width) as nat) == 0)
                by (nonlinear_arith)
                requires
                    terminal_width < max_entry_width + separator_width,
            ;
            1
        },
        Some(d) => {
            let c: usize = terminal_width / d;
            if c == 0 {
                1
            } else {
                c
            }
        },
    }
}

/// Chooses the layout of a measured batch on a terminal `terminal_width`
/// columns wide.
pub fn decide_layout(m: &Metrics, separator_width: usize, terminal_width: usize) -> (r: Layout)
    requires
        m.count == 0 || m.max_entry_width + separator_width > 0,
    ensures
        r == layout_for(
            m.count as nat,
            m.flattened_width as nat,
            m.max_entry_width as nat,
            separator_width as nat,
            terminal_width as nat,
        ),
{
    if m.count == 0 {
        return Layout::Empty;
    }
    let c: usize = columns(terminal_width, m.max_entry_width, separator_width);
    if m.flattened_width <= terminal_width || m.count <= c {
        Layout::SingleLine
    } else {
        proof {
            lemma_ceil_div_bound(m.count as nat, c as nat);
        }
        let rows: usize = if m.count % c == 0 {
            m.count / c
        } else {
            m.count / c + 1
        };
        Layout::Grid { columns: c, rows }
    }
}

/// A grid never has more rows than cells.
pub proof fn lemma_ceil_div_bound(count: nat, c: nat)
    requires
        c >= 1,
    ensures
        ceil_div(count, c) <= count,
{
    lemma_fundamental_div_mod(count as int, c as int);
    let q = count / c;
    let r = count % c;
    assert(ceil_div(count, c) <= count) by (nonlinear_arith)
        requires
            count == c * q + r,
            c >= 1,
            q >= 0,
            r >= 0,
            ceil_div(count, c) == if r == 0 { q } else { q + 1 },
    ;
}

/// Row `k` of a grid starts inside the batch exactly when `k` is below the
/// number of rows.
pub proof fn lemma_row_start(count: nat, c: nat, k: nat)
    requires
        c >= 1,
    ensures
        k < ceil_div(count, c) <==> k * c < count,
{
    lemma_fundamental_div_mod(count as int, c as int);
    let q = count / c;
    let r = count % c;
    assert(0 <= r < c);
    if k < ceil_div(count, c) {
        if k < q {
            assert(k * c < count) by (nonlinear_arith)
                requires
                    k < q,
                    count == c * q + r,
                    c >= 1,
            ;
        } else {
            assert(k * c < count) by (nonlinear_arith)
                requires
                    k == q,
                    count == c * q + r,
                    r > 0,
            ;
        }
    } else {
        assert(k * c >= count) by (nonlinear_arith)
            requires
                k >= q,
                r == 0 ==> k >= q,
                r > 0 ==> k >= q + 1,
                count == c * q + r,
                r < c,
                c >= 1,
        ;
    }
}

/// Places `count` cells into rows of `columns` cells, row by row: row `k`
/// holds the indices `k * columns` up to the next row's start or `count`.
pub fn arrange(count: usize, columns: usize) -> (r: Vec<Vec<usize>>)
    requires
        columns >= 1,
    ensures
        r@.len() == ceil_div(count as nat, columns as nat),
        forall|k: int| 0 <= k < r@.len() ==> (#[trigger] r@[k])@ == grid_row(count as nat, columns as nat, k as nat),
{
    proof {
        lemma_ceil_div_bound(count as nat, columns as nat);
        lemma_row_start(count as nat, columns as nat, 0);
    }
    let rows: usize = if count % columns == 0 {
        count / columns
    } else {
        count / columns + 1
    };
    let mut out: Vec<Vec<usize>> = Vec::new();
    let mut k: usize = 0;
    let mut start: usize = 0;
    while k < rows
        invariant
            columns >= 1,
            rows == ceil_div(count as nat, columns as nat),
            k <= rows,
            k < rows ==> start == k * columns && start < count,
            out@.len() == k,
            forall|i: int| 0 <= i < k ==> (#[trigger] out@[i])@ == grid_row(count as nat, columns as nat, i as nat),
        decreases rows - k,
    {
        proof {
            lemma_row_start(count as nat, columns as nat, k as nat);
            lemma_row_start(count as nat, columns as nat, (k + 1) as nat);
            assert((k + 1) * columns == k * columns + columns) by (nonlinear_arith);
        }
        let rest: usize = count - start;
        let len: usize = if rest < columns {
            rest
        } else {
            columns
        };
        let mut row: Vec<usize> = Vec::new();
        let mut j: usize = 0;
        while j < len
            invariant
                j <= len,
                start + len <= count,
                row@.len() == j,
                forall|i: int| 0 <= i < j ==> row@[i] == start + i,
            decreases len - j,
        {
            row.push(start + j);
            j = j + 1;
        }
        assert(row@ == grid_row(count as nat, columns as nat, k as nat));
        out.push(row);
        k = k + 1;
        if k < rows {
            start = start + columns;
        }
    }
    out
}

/// The first `r` rows of a grid of `count` cells, `c` to a row.
pub open spec fn grid_rows(count: nat, c: nat, r: nat) -> Seq<Seq<usize>> {
    Seq::new(r, |k: int| grid_row(count, c, k as nat))
}

/// The indices `0 .. n`, in order.
pub open spec fn indices(n: nat) -> Seq<usize> {
    Seq::new(n, |i: int| i as usize)
}

proof fn lemma_grid_prefix(count: nat, c: nat, r: nat)
    requires
        c >= 1,
        r <= ceil_div(count, c),
    ensures
        grid_rows(count, c, r).flatten() == indices(if r * c < count { r * c } else { count }),
    decreases r,
{
    if r == 0 {
        assert(grid_rows(count, c, 0).flatten() =~= indices(0));
    } else {
        let p = (r - 1) as nat;
        lemma_grid_prefix(count, c, p);
        lemma_row_start(count, c, p);
        assert(grid_rows(count, c, r) =~= grid_rows(count, c, p).push(grid_row(count, c, p)));
        grid_rows(count, c, p).lemma_flatten_push(grid_row(count, c, p));
        assert(r * c == p * c + c) by (nonlinear_arith)
            requires
                r == p + 1,
        ;
        assert(grid_rows(count, c, r).flatten() =~= indices(if r * c < count { r * c } else { count }));
    }
}

/// Reading the grid row by row gives back every index of the batch exactly
/// once and in order: the fill is row-major.
pub proof fn lemma_grid_row_major(count: nat, columns: nat)
    requires
        columns >= 1,
    ensures
        grid_rows(count, columns, ceil_div(count, columns)).flatten() == indices(count),
{
    let rows = ceil_div(count, columns);
    lemma_grid_prefix(count, columns, rows);
    lemma_row_start(count, columns, rows);
}

/// The column count is never zero.
pub proof fn lemma_columns_positive(term_w: nat, max_w: nat, sep_w: nat)
    ensures
        columns_for(term_w, max_w, sep_w) >= 1,
{
}

/// An empty batch has the empty layout.
pub proof fn lemma_empty_layout(s: Seq<Entry>, sep_w: nat, term_w: nat)
    requires
        s.len() == 0,
    ensures
        batch_layout(s, sep_w, term_w) == Layout::Empty,
{
}

/// A single entry always stands on a single line, however wide it is.
pub proof fn lemma_one_entry_single_line(s: Seq<Entry>, sep_w: nat, term_w: nat)
    requires
        s.len() == 1,
    ensures
        batch_layout(s, sep_w, term_w) == Layout::SingleLine,
{
    lemma_columns_positive(term_w, max_width(s), sep_w);
}

/// A non-empty batch whose flattened width fits the terminal is printed on a
/// single line.
pub proof fn lemma_fitting_single_line(s: Seq<Entry>, sep_w: nat, term_w: nat)
    requires
        s.len() > 0,
        flattened_width(s, sep_w) <= term_w,
    ensures
        batch_layout(s, sep_w, term_w) == Layout::SingleLine,
{
}

/// In grid mode the grid has `ceil(count / columns)` rows of at most
/// `columns` cells, and more cells than fit one row.
pub proof fn lemma_grid_shape(s: Seq<Entry>, sep_w: nat, term_w: nat)
    requires
        batch_layout(s, sep_w, term_w) is Grid,
        s.len() <= usize::MAX,
    ensures
        batch_layout(s, sep_w, term_w) matches Layout::Grid { columns, rows } ==> {
            &&& columns >= 1
            &&& columns as nat == columns_for(term_w, max_width(s), sep_w)
            &&& rows as nat == ceil_div(s.len(), columns as nat)
            &&& s.len() > columns
            &&& flattened_width(s, sep_w) > term_w
        },
{
    let c = columns_for(term_w, max_width(s), sep_w);
    lemma_ceil_div_bound(s.len(), c);
}

} // verus!
