use vstd::prelude::*;

use crate::entry::Entry;
use crate::text::{push_spaces, push_str, spaces};
use crate::layout::{
    arrange,
    batch_layout,
    ceil_div,
    grid_rows,
    indices,
    lemma_grid_row_major,
    lemma_grid_shape,
    decide_layout,
    flattened_width,
    get_metrics,
    grid_row,
    lemma_max_width_bounds,
    lemma_one_entry_single_line,
    lemma_ceil_div_bound,
    lemma_row_start,
    max_width,
    row_len,
    Layout,
};

verus! {

/// The text of one cell: the entry's display string and, unless the cell
/// ends its line, padding up to `pad_to` visible columns (in a padded line)
/// and the separator.
pub open spec fn cell_text(e: Entry, sep: Seq<char>, padded: bool, pad_to: nat, last: bool) -> Seq<char> {
    if last {
        e.display_view()
    } else if padded {
        e.display_view() + spaces((pad_to - e.width()) as nat) + sep
    } else {
        e.display_view() + sep
    }
}

/// The first `k` cells of a line of `n` cells whose first entry is `s[start]`.
pub open spec fn line_text(
    s: Seq<Entry>,
    sep: Seq<char>,
    padded: bool,
    pad_to: nat,
    start: nat,
    n: nat,
    k: nat,
) -> Seq<char>
    decreases k,
{
    if k == 0 {
        Seq::empty()
    } else {
        line_text(s, sep, padded, pad_to, start, n, (k - 1) as nat) + cell_text(
            s[start + k - 1],
            sep,
            padded,
            pad_to,
            k == n,
        )
    }
}

/// Row `k` of the grid: the cells that `grid_row` assigns to it, each padded
/// to the widest entry.
pub open spec fn grid_line(s: Seq<Entry>, sep: Seq<char>, columns: nat, k: nat) -> Seq<char> {
    let n = row_len(s.len(), columns, k);
    line_text(s, sep, true, max_width(s), k * columns, n, n)
}

/// The lines printed for a batch on a terminal `term_w` columns wide.
pub open spec fn rendered(s: Seq<Entry>, sep: Seq<char>, term_w: nat) -> Seq<Seq<char>> {
    match batch_layout(s, sep.len(), term_w) {
        Layout::Empty => Seq::empty(),
        Layout::SingleLine => seq![line_text(s, sep, false, 0, 0, s.len(), s.len())],
        Layout::Grid { columns, rows } => Seq::new(
            rows as nat,
            |k: int| grid_line(s, sep, columns as nat, k as nat),
        ),
    }
}

/// Writes the `n` cells that start at `entries[start]` on one line.
fn render_line(
    entries: &Vec<Entry>,
    sep: &str,
    padded: bool,
    pad_to: usize,
    start: usize,
    n: usize,
) -> (r: Vec<char>)
    requires
        start + n <= entries@.len(),
        padded ==> forall|i: int| start <= i < start + n ==> (#[trigger] entries@[i]).width() <= pad_to,
    ensures
        r@ == line_text(entries@, sep@, padded, pad_to as nat, start as nat, n as nat, n as nat),
{
    let total: usize = entries.len();
    let mut out: Vec<char> = Vec::new();
    let mut k: usize = 0;
    while k < n
        invariant
            k <= n,
            total == entries@.len(),
            start + n <= entries@.len(),
            padded ==> forall|i: int| start <= i < start + n ==> (#[trigger] entries@[i]).width() <= pad_to,
            out@ == line_text(entries@, sep@, padded, pad_to as nat, start as nat, n as nat, k as nat),
        decreases n - k,
    {
        let e: &Entry = &entries[start + k];
        push_str(&mut out, e.display());
        if k + 1 < n {
            if padded {
                let w: usize = e.visible_width();
                push_spaces(&mut out, pad_to - w);
            }
            push_str(&mut out, sep);
        }
        k = k + 1;
    }
    out
}

/// Lays a sorted batch out for a terminal `terminal_width` columns wide and
/// returns the lines to print: none for an empty batch, one line of all
/// entries joined by `separator` when they fit or are few, and otherwise a
/// grid filled row by row whose cells are padded to the widest entry.
pub fn render(entries: &Vec<Entry>, separator: &str, terminal_width: usize) -> (r: Vec<Vec<char>>)
    requires
        entries@.len() == 0 || separator@.len() + max_width(entries@) > 0,
        flattened_width(entries@, separator@.len()) <= usize::MAX,
    ensures
        r@.len() == rendered(entries@, separator@, terminal_width as nat).len(),
        forall|k: int|
            0 <= k < r@.len() ==> (#[trigger] r@[k])@ == rendered(entries@, separator@, terminal_width as nat)[k],
{
    let sep_w: usize = separator.unicode_len();
    let m = get_metrics(entries, sep_w);
    let layout = decide_layout(&m, sep_w, terminal_width);
    let mut lines: Vec<Vec<char>> = Vec::new();
    match layout {
        Layout::Empty => {},
        Layout::SingleLine => {
            let line = render_line(entries, separator, false, 0, 0, entries.len());
            lines.push(line);
            assert(lines@.len() == 1);
        },
        Layout::Grid { columns, rows } => {
            let count: usize = entries.len();
            let grid = arrange(count, columns);
            proof {
                lemma_ceil_div_bound(count as nat, columns as nat);
            }
            let ghost s = entries@;
            let ghost want = rendered(s, separator@, terminal_width as nat);
            let mut k: usize = 0;
            while k < rows
                invariant
                    columns >= 1,
                    s == entries@,
                    grid@.len() == rows,
                    forall|i: int| 0 <= i < grid@.len() ==> (#[trigger] grid@[i])@ == grid_row(s.len(), columns as nat, i as nat),
                    want.len() == rows,
                    forall|i: int| 0 <= i < rows ==> #[trigger] want[i] == grid_line(s, separator@, columns as nat, i as nat),
                    m.max_entry_width == max_width(s),
                    count == s.len(),
                    rows as nat == ceil_div(count as nat, columns as nat),
                    k <= rows,
                    lines@.len() == k,
                    forall|i: int| 0 <= i < k ==> (#[trigger] lines@[i])@ == want[i],
                decreases rows - k,
            {
                let row: &Vec<usize> = &grid[k];
                let n: usize = row.len();
                proof {
                    lemma_row_start(s.len(), columns as nat, k as nat);
                }
                let start: usize = k * columns;
                proof {
                    assert forall|i: int| start <= i < start + n implies (#[trigger] entries@[i]).width() <= m.max_entry_width by {
                        lemma_max_width_bounds(s, i);
                    }
                }
                let line = render_line(entries, separator, true, m.max_entry_width, start, n);
                lines.push(line);
                k = k + 1;
            }
        },
    }
    lines
}

/// The display strings of all entries, one separator between each two and
/// none at either end.
pub open spec fn joined(s: Seq<Entry>, sep: Seq<char>) -> Seq<char>
    decreases s.len(),
{
    if s.len() == 0 {
        Seq::empty()
    } else if s.len() == 1 {
        s[0].display_view()
    } else {
        joined(s.drop_last(), sep) + sep + s.last().display_view()
    }
}

proof fn lemma_unpadded_line(s: Seq<Entry>, sep: Seq<char>, n: nat, k: nat)
    requires
        1 <= k <= n <= s.len(),
    ensures
        line_text(s, sep, false, 0, 0, n, k) == joined(s.take(k as int), sep) + (if k < n {
            sep
        } else {
            Seq::empty()
        }),
    decreases k,
{
    if k == 1 {
        assert(line_text(s, sep, false, 0, 0, n, 0) == Seq::<char>::empty());
        assert(line_text(s, sep, false, 0, 0, n, 1) =~= joined(s.take(1), sep) + (if 1 < n {
            sep
        } else {
            Seq::empty()
        }));
    } else {
        lemma_unpadded_line(s, sep, n, (k - 1) as nat);
        assert(s.take(k as int).drop_last() =~= s.take(k - 1));
        assert(line_text(s, sep, false, 0, 0, n, k) =~= joined(s.take(k as int), sep) + (if k < n {
            sep
        } else {
            Seq::empty()
        }));
    }
}

/// An empty batch prints no line.
pub proof fn lemma_empty_renders_nothing(s: Seq<Entry>, sep: Seq<char>, term_w: nat)
    requires
        s.len() == 0,
    ensures
        rendered(s, sep, term_w) == Seq::<Seq<char>>::empty(),
{
}

/// A batch that fits the terminal prints as one line: the entries in batch
/// order, one separator between each two, none after the last.
pub proof fn lemma_fitting_renders_joined(s: Seq<Entry>, sep: Seq<char>, term_w: nat)
    requires
        s.len() > 0,
        flattened_width(s, sep.len()) <= term_w,
    ensures
        rendered(s, sep, term_w) == seq![joined(s, sep)],
{
    lemma_unpadded_line(s, sep, s.len(), s.len());
    assert(s.take(s.len() as int) =~= s);
}

/// A single entry prints as its display string alone, unpadded, whatever
/// its width and the terminal's.
pub proof fn lemma_one_entry_renders_alone(s: Seq<Entry>, sep: Seq<char>, term_w: nat)
    requires
        s.len() == 1,
    ensures
        rendered(s, sep, term_w) == seq![s[0].display_view()],
{
    lemma_one_entry_single_line(s, sep.len(), term_w);
    lemma_unpadded_line(s, sep, 1, 1);
    assert(s.take(1) =~= s);
}

/// Padding goes by visible width alone: two entries of equal visible width
/// are followed by the same padding and separator, however their display
/// strings differ, and a padded cell fills exactly `pad_to` visible columns.
pub proof fn lemma_padding_ignores_styling(e1: Entry, e2: Entry, sep: Seq<char>, pad_to: nat)
    requires
        e1.width() == e2.width(),
        e1.width() <= pad_to,
    ensures
        cell_text(e1, sep, true, pad_to, false).skip(e1.display_view().len() as int) == cell_text(
            e2,
            sep,
            true,
            pad_to,
            false,
        ).skip(e2.display_view().len() as int),
        cell_text(e1, sep, true, pad_to, false).skip(e1.display_view().len() as int) == spaces(
            (pad_to - e1.width()) as nat,
        ) + sep,
        e1.width() + spaces((pad_to - e1.width()) as nat).len() == pad_to,
{
    assert(cell_text(e1, sep, true, pad_to, false).skip(e1.display_view().len() as int) =~= spaces(
        (pad_to - e1.width()) as nat,
    ) + sep);
    assert(cell_text(e2, sep, true, pad_to, false).skip(e2.display_view().len() as int) =~= spaces(
        (pad_to - e2.width()) as nat,
    ) + sep);
}

/// In a grid every entry is padded to the widest entry of the batch.
pub proof fn lemma_grid_pads_to_widest(s: Seq<Entry>, i: int)
    requires
        0 <= i < s.len(),
    ensures
        s[i].width() + spaces((max_width(s) - s[i].width()) as nat).len() == max_width(s),
{
    lemma_max_width_bounds(s, i);
}

/// The first `k` padded cells of a line holding the entries whose indices
/// `idx` lists, in that order.
pub open spec fn indexed_line(s: Seq<Entry>, sep: Seq<char>, pad_to: nat, idx: Seq<usize>, k: nat) -> Seq<char>
    decreases k,
{
    if k == 0 {
        Seq::empty()
    } else {
        indexed_line(s, sep, pad_to, idx, (k - 1) as nat) + cell_text(
            s[idx[k - 1] as int],
            sep,
            true,
            pad_to,
            k == idx.len(),
        )
    }
}

proof fn lemma_line_by_indices(s: Seq<Entry>, sep: Seq<char>, pad_to: nat, start: nat, idx: Seq<usize>, k: nat)
    requires
        k <= idx.len(),
        forall|j: int| 0 <= j < idx.len() ==> idx[j] as int == start + j,
    ensures
        line_text(s, sep, true, pad_to, start, idx.len(), k) == indexed_line(s, sep, pad_to, idx, k),
    decreases k,
{
    if k > 0 {
        lemma_line_by_indices(s, sep, pad_to, start, idx, (k - 1) as nat);
    }
}

/// In grid mode the printed lines are the rows of `arrange`, in order: line
/// `k` holds, padded to the widest entry, exactly the entries whose indices
/// row `k` lists, and those rows read one after another list every index of
/// the batch once, in batch order.
pub proof fn lemma_grid_lines_row_major(s: Seq<Entry>, sep: Seq<char>, term_w: nat)
    requires
        s.len() <= usize::MAX,
        batch_layout(s, sep.len(), term_w) is Grid,
    ensures
        batch_layout(s, sep.len(), term_w) matches Layout::Grid { columns, rows } ==> {
            &&& rows as nat == ceil_div(s.len(), columns as nat)
            &&& rendered(s, sep, term_w).len() == rows
            &&& grid_rows(s.len(), columns as nat, rows as nat).flatten() == indices(s.len())
            &&& forall|k: int|
                0 <= k < rows ==> #[trigger] rendered(s, sep, term_w)[k] == indexed_line(
                    s,
                    sep,
                    max_width(s),
                    grid_row(s.len(), columns as nat, k as nat),
                    row_len(s.len(), columns as nat, k as nat),
                )
        },
{
    lemma_grid_shape(s, sep.len(), term_w);
    if let Layout::Grid { columns, rows } = batch_layout(s, sep.len(), term_w) {
        let c = columns as nat;
        lemma_grid_row_major(s.len(), c);
        assert forall|k: int| 0 <= k < rows implies #[trigger] rendered(s, sep, term_w)[k] == indexed_line(
            s,
            sep,
            max_width(s),
            grid_row(s.len(), c, k as nat),
            row_len(s.len(), c, k as nat),
        ) by {
            let idx = grid_row(s.len(), c, k as nat);
            lemma_row_start(s.len(), c, k as nat);
            assert forall|j: int| 0 <= j < idx.len() implies idx[j] as int == k * c + j by {
                assert(k * c + j < s.len());
            }
            lemma_line_by_indices(s, sep, max_width(s), (k * c) as nat, idx, idx.len());
        }
    }
}

} // verus!
