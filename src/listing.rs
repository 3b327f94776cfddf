use vstd::prelude::*;

use crate::entry::Entry;
use crate::layout::{columns, columns_for, flattened_width, max_width};
use crate::render::{lemma_empty_renders_nothing, render, rendered};
use crate::text::chars;

verus! {

/// Everything printed for one directory: its name as a header line when
/// several directories are listed, the lines of its batch, one line per
/// entry that could not be read, and a blank line after a headed listing.
pub open spec fn listing_lines(
    header: Option<Seq<char>>,
    s: Seq<Entry>,
    errors: Seq<Seq<char>>,
    sep: Seq<char>,
    term_w: nat,
) -> Seq<Seq<char>> {
    let head = match header {
        Some(h) => seq![h],
        None => Seq::empty(),
    };
    let tail = if header is Some {
        seq![Seq::<char>::empty()]
    } else {
        Seq::empty()
    };
    head + rendered(s, sep, term_w) + errors + tail
}

pub open spec fn messages(errors: Seq<String>) -> Seq<Seq<char>> {
    errors.map_values(|e: String| e@)
}

pub open spec fn header_view(header: Option<&str>) -> Option<Seq<char>> {
    match header {
        Some(h) => Some(h@),
        None => None,
    }
}

/// The lines printed for one directory on a terminal `terminal_width`
/// columns wide: see `listing_lines`. The entries that could not be read
/// come after the batch and never change its layout.
pub fn display_dir(
    header: Option<&str>,
    entries: &Vec<Entry>,
    errors: &Vec<String>,
    separator: &str,
    terminal_width: usize,
) -> (r: Vec<Vec<char>>)
    requires
        entries@.len() == 0 || separator@.len() + max_width(entries@) > 0,
        flattened_width(entries@, separator@.len()) <= usize::MAX,
    ensures
        r@.len() == listing_lines(header_view(header), entries@, messages(errors@), separator@, terminal_width as nat).len(),
        forall|k: int|
            0 <= k < r@.len() ==> (#[trigger] r@[k])@ == listing_lines(
                header_view(header),
                entries@,
                messages(errors@),
                separator@,
                terminal_width as nat,
            )[k],
{
    let ghost want = listing_lines(header_view(header), entries@, messages(errors@), separator@, terminal_width as nat);
    let ghost body = rendered(entries@, separator@, terminal_width as nat);
    let ghost errs = messages(errors@);
    let mut out: Vec<Vec<char>> = Vec::new();
    let h: usize = match header {
        Some(name) => {
            out.push(chars(name));
            1
        },
        None => 0,
    };
    let lines = render(entries, separator, terminal_width);
    let n: usize = lines.len();
    let mut i: usize = 0;
    while i < n
        invariant
            n == lines@.len(),
            n == body.len(),
            forall|k: int| 0 <= k < n ==> (#[trigger] lines@[k])@ == body[k],
            h == (if header is Some { 1nat } else { 0nat }),
            header matches Some(name) ==> out@[0]@ == name@,
            i <= n,
            out@.len() == h + i,
            forall|k: int| 0 <= k < i ==> (#[trigger] out@[h + k])@ == body[k],
        decreases n - i,
    {
        out.push(lines[i].clone());
        i = i + 1;
    }
    let m: usize = errors.len();
    let mut j: usize = 0;
    while j < m
        invariant
            m == errors@.len(),
            errs == messages(errors@),
            n == body.len(),
            h == (if header is Some { 1nat } else { 0nat }),
            header matches Some(name) ==> out@[0]@ == name@,
            forall|k: int| 0 <= k < n ==> (#[trigger] out@[h + k])@ == body[k],
            j <= m,
            out@.len() == h + n + j,
            forall|k: int| 0 <= k < j ==> (#[trigger] out@[h + n + k])@ == errs[k],
        decreases m - j,
    {
        out.push(chars(errors[j].as_str()));
        j = j + 1;
    }
    if header.is_some() {
        out.push(Vec::new());
    }
    assert forall|k: int| 0 <= k < out@.len() implies (#[trigger] out@[k])@ == want[k] by {
        if k < h {
        } else if k < h + n {
            assert(out@[h + (k - h)] == out@[k]);
        } else if k < h + n + m {
            assert(out@[h + n + (k - h - n)] == out@[k]);
        }
    }
    out
}

/// Without entries only the header, the unreadable entries and the closing
/// blank line are printed.
pub proof fn lemma_empty_listing(
    header: Option<Seq<char>>,
    s: Seq<Entry>,
    errors: Seq<Seq<char>>,
    sep: Seq<char>,
    term_w: nat,
)
    requires
        s.len() == 0,
    ensures
        listing_lines(header, s, errors, sep, term_w) == (match header {
            Some(h) => seq![h],
            None => Seq::empty(),
        }) + errors + (if header is Some {
            seq![Seq::<char>::empty()]
        } else {
            Seq::empty()
        }),
{
    lemma_empty_renders_nothing(s, sep, term_w);
    assert(rendered(s, sep, term_w) == Seq::<Seq<char>>::empty());
    let head: Seq<Seq<char>> = match header {
        Some(h) => seq![h],
        None => Seq::empty(),
    };
    assert(head + Seq::<Seq<char>>::empty() =~= head);
}

/// Relies on term_size::dimensions: it reports the terminal's size only when
/// both its width and its height are non-zero, and nothing otherwise.
#[verifier::external_body]
fn terminal_width() -> (r: Option<usize>)
    ensures
        r matches Some(w) ==> w > 0,
{
    term_size::dimensions().map(|d| d.0)
}

/// Lists one directory on the current terminal. Fails, with `None`, only
/// when the terminal's size cannot be determined; otherwise the lines are
/// those of `display_dir` for some positive terminal width.
pub fn list_directory(
    header: Option<&str>,
    entries: &Vec<Entry>,
    errors: &Vec<String>,
    separator: &str,
) -> (r: Option<Vec<Vec<char>>>)
    requires
        entries@.len() == 0 || separator@.len() + max_width(entries@) > 0,
        flattened_width(entries@, separator@.len()) <= usize::MAX,
    ensures
        r matches Some(lines) ==> exists|w: nat|
            w > 0 && lines@.len() == listing_lines(header_view(header), entries@, messages(errors@), separator@, w).len()
                && forall|k: int|
                0 <= k < lines@.len() ==> (#[trigger] lines@[k])@ == listing_lines(
                    header_view(header),
                    entries@,
                    messages(errors@),
                    separator@,
                    w,
                )[k],
{
    match terminal_width() {
        Some(w) => Some(display_dir(header, entries, errors, separator, w)),
        None => None,
    }
}

/// How many entries of `longest_name_len` visible columns, each followed by
/// a separator, fit one line of the current terminal; `None` when its size
/// cannot be determined.
pub fn get_max_per_line(longest_name_len: usize, separator_width: usize) -> (r: Option<usize>)
    requires
        longest_name_len + separator_width > 0,
    ensures
        r matches Some(c) ==> c >= 1 && exists|w: nat|
            w > 0 && c == columns_for(w, longest_name_len as nat, separator_width as nat),
{
    match terminal_width() {
        Some(w) => Some(columns(w, longest_name_len, separator_width)),
        None => None,
    }
}

} // verus!
