use rainbow_ls::entry::{name_le_exec, sort_entries, Entry};
use rainbow_ls::layout::{arrange, columns, decide_layout, get_metrics, measurable, Layout, Metrics};
use rainbow_ls::listing::{display_dir, get_max_per_line, list_directory};
use rainbow_ls::render::render;

fn plain(names: &[&str]) -> Vec<Entry> {
    names.iter().map(|n| Entry::plain(n.to_string())).collect()
}

fn text(lines: &[Vec<char>]) -> Vec<String> {
    lines.iter().map(|l| l.iter().collect::<String>()).collect()
}

#[test]
fn empty_batch_renders_nothing() {
    let entries: Vec<Entry> = Vec::new();
    let m = get_metrics(&entries, 1);
    assert_eq!(m.count, 0);
    assert_eq!(m.flattened_width, 0);
    assert_eq!(m.max_entry_width, 0);
    assert_eq!(decide_layout(&m, 1, 80), Layout::Empty);
    assert!(render(&entries, " ", 80).is_empty());
}

#[test]
fn empty_batch_prints_only_errors() {
    let entries: Vec<Entry> = Vec::new();
    let errors = vec!["Permission denied (os error 13)".to_string()];
    let lines = display_dir(None, &entries, &errors, " ", 80);
    assert_eq!(text(&lines), vec!["Permission denied (os error 13)".to_string()]);
}

#[test]
fn one_entry_is_single_line() {
    let entries = plain(&["solo"]);
    let m = get_metrics(&entries, 1);
    assert_eq!(decide_layout(&m, 1, 2), Layout::SingleLine);
    assert_eq!(text(&render(&entries, " ", 2)), vec!["solo".to_string()]);
}

#[test]
fn columns_never_zero() {
    assert_eq!(columns(10, 3, 1), 2);
    assert_eq!(columns(10, 50, 1), 1);
    assert_eq!(columns(1, 1, 1), 1);
    assert_eq!(columns(80, usize::MAX, 1), 1);
    assert_eq!(columns(80, 9, 1), 8);
}

#[test]
fn short_names_on_one_line() {
    let entries = plain(&["a", "bb", "ccc"]);
    let m = get_metrics(&entries, 1);
    assert_eq!(m.max_entry_width, 3);
    assert_eq!(m.flattened_width, 8);
    assert_eq!(columns(10, m.max_entry_width, 1), 2);
    assert_eq!(decide_layout(&m, 1, 10), Layout::SingleLine);
    assert_eq!(text(&render(&entries, " ", 10)), vec!["a bb ccc".to_string()]);
}

#[test]
fn five_names_in_a_grid() {
    let entries = plain(&["aaaa", "bbbb", "cccc", "dddd", "eeee"]);
    let m = get_metrics(&entries, 1);
    assert_eq!(m.max_entry_width, 4);
    assert_eq!(m.flattened_width, 24);
    assert_eq!(decide_layout(&m, 1, 10), Layout::Grid { columns: 2, rows: 3 });
    assert_eq!(
        text(&render(&entries, " ", 10)),
        vec!["aaaa bbbb".to_string(), "cccc dddd".to_string(), "eeee".to_string()]
    );
}

#[test]
fn wide_entry_alone_on_its_line() {
    let name = "x".repeat(50);
    let entries = plain(&[name.as_str()]);
    let m = get_metrics(&entries, 1);
    assert_eq!(m.max_entry_width, 50);
    assert_eq!(columns(10, 50, 1), 1);
    assert_eq!(decide_layout(&m, 1, 10), Layout::SingleLine);
    assert_eq!(text(&render(&entries, " ", 10)), vec![name]);
}

#[test]
fn unreadable_children_printed_after_listing() {
    let entries = sort_entries(plain(&["e", "c", "a", "d", "b"]));
    let errors = vec!["denied one".to_string(), "denied two".to_string()];
    let lines = display_dir(None, &entries, &errors, " ", 80);
    assert_eq!(
        text(&lines),
        vec!["a b c d e".to_string(), "denied one".to_string(), "denied two".to_string()]
    );
}

#[test]
fn headed_listing_ends_with_blank_line() {
    let entries = plain(&["a", "b"]);
    let errors: Vec<String> = Vec::new();
    let lines = display_dir(Some("src"), &entries, &errors, " ", 80);
    assert_eq!(text(&lines), vec!["src".to_string(), "a b".to_string(), String::new()]);
}

#[test]
fn grid_pads_by_visible_width() {
    let styled = Entry::new("ab".to_string(), "\u{1b}[31mab\u{1b}[0m".to_string()).unwrap();
    assert_eq!(styled.visible_width(), 2);
    let entries = vec![
        styled,
        Entry::plain("cd".to_string()),
        Entry::plain("efgh".to_string()),
        Entry::plain("ij".to_string()),
    ];
    let m = get_metrics(&entries, 1);
    assert_eq!(m.max_entry_width, 4);
    assert_eq!(m.flattened_width, 13);
    assert_eq!(decide_layout(&m, 1, 12), Layout::Grid { columns: 2, rows: 2 });
    assert_eq!(
        text(&render(&entries, " ", 12)),
        vec!["\u{1b}[31mab\u{1b}[0m   cd".to_string(), "efgh ij".to_string()]
    );
}

#[test]
fn grid_fill_is_row_major() {
    assert_eq!(arrange(5, 2), vec![vec![0, 1], vec![2, 3], vec![4]]);
    assert_eq!(arrange(6, 3), vec![vec![0, 1, 2], vec![3, 4, 5]]);
    assert_eq!(arrange(0, 3), Vec::<Vec<usize>>::new());
    let flat: Vec<usize> = arrange(7, 3).into_iter().flatten().collect();
    assert_eq!(flat, (0..7).collect::<Vec<usize>>());
}

#[test]
fn few_entries_stay_on_one_line() {
    let m = Metrics { count: 2, flattened_width: 100, max_entry_width: 3 };
    assert_eq!(decide_layout(&m, 1, 10), Layout::SingleLine);
    let m = Metrics { count: 3, flattened_width: 100, max_entry_width: 3 };
    assert_eq!(decide_layout(&m, 1, 10), Layout::Grid { columns: 2, rows: 2 });
}

#[test]
fn wider_separator_counts_in_metrics() {
    let entries = plain(&["ab", "c", "def"]);
    let m = get_metrics(&entries, 2);
    assert_eq!(m.flattened_width, 10);
    assert_eq!(text(&render(&entries, "  ", 10)), vec!["ab  c  def".to_string()]);
}

#[test]
fn sorting_is_case_sensitive_by_name() {
    let sorted = sort_entries(plain(&["b", "a", "C", "ab", "B"]));
    let names: Vec<&str> = sorted.iter().map(|e| e.name()).collect();
    assert_eq!(names, vec!["B", "C", "a", "ab", "b"]);
}

#[test]
fn name_order_is_lexicographic() {
    assert!(name_le_exec("a", "b"));
    assert!(!name_le_exec("b", "a"));
    assert!(name_le_exec("ab", "ab"));
    assert!(name_le_exec("ab", "abc"));
    assert!(!name_le_exec("abc", "ab"));
    assert!(name_le_exec("", "a"));
    assert!(name_le_exec("Z", "a"));
}

#[test]
fn styled_string_must_cover_the_name() {
    assert!(Entry::new("abc".to_string(), "ab".to_string()).is_none());
    let e = Entry::new("é".to_string(), "[é]".to_string()).unwrap();
    assert_eq!(e.visible_width(), 1);
    assert_eq!(e.display(), "[é]");
    assert_eq!(e.name(), "é");
}

#[test]
fn measurable_reports_overflow() {
    let entries = plain(&["a", "b"]);
    assert!(measurable(&entries, 1));
    assert!(!measurable(&entries, usize::MAX));
    let empty: Vec<Entry> = Vec::new();
    assert!(measurable(&empty, usize::MAX));
}

#[test]
fn terminal_queries_agree_with_layout() {
    let entries = plain(&["a", "b"]);
    let errors: Vec<String> = Vec::new();
    if let Some(lines) = list_directory(None, &entries, &errors, " ") {
        assert_eq!(text(&lines), vec!["a b".to_string()]);
    }
    if let Some(c) = get_max_per_line(3, 1) {
        assert!(c >= 1);
    }
}
