use listview::files::{File, Files, SortBy};
use listview::listview::{
    first_match_in, Key, KeyOutcome, ListError, ListView, Listable, Palette, WidgetCore,
};
use listview::render::{byte_len, pad, sized_string};

fn palette() -> Palette {
    Palette {
        normal: "<n>".to_string(),
        red: "<r>".to_string(),
        yellow: "<y>".to_string(),
        highlight: "<h>".to_string(),
        reset: "<x>".to_string(),
        invert: "<i>".to_string(),
    }
}

fn frame(xsize: u16, ysize: u16) -> WidgetCore {
    WidgetCore {
        xpos: 1,
        ypos: 1,
        xsize,
        ysize,
        dirty: false,
        status: String::new(),
        palette: palette(),
    }
}

fn file(name: &str, size: u64, mtime: u64) -> File {
    File::new(name.to_string(), format!("/d/{}", name), Some(size), mtime, false)
}

fn view_of(names: &[&str], ysize: u16) -> ListView {
    let files: Vec<File> = names
        .iter()
        .enumerate()
        .map(|(i, n)| file(n, (i as u64 + 1) * 100, 1000 + i as u64))
        .collect();
    let mut v = ListView::new(frame(40, ysize), Files::new(files));
    v.refresh();
    v
}

fn selected_name(v: &ListView) -> String {
    v.selected_file().name.clone()
}

#[test]
fn move_down_scrolls_by_one_at_bottom() {
    let mut v = view_of(&["a", "b", "c", "d", "e"], 3);
    for _ in 0..4 {
        v.move_down();
    }
    assert_eq!(v.get_selection(), 4);
    assert_eq!(v.offset, 2);
    v.move_down();
    assert_eq!(v.get_selection(), 4);
    assert_eq!(v.offset, 2);
}

#[test]
fn move_up_scrolls_back() {
    let mut v = view_of(&["a", "b", "c", "d", "e"], 3);
    for _ in 0..4 {
        v.move_down();
    }
    for _ in 0..3 {
        v.move_up();
    }
    assert_eq!(v.get_selection(), 1);
    assert_eq!(v.offset, 1);
    v.move_up();
    v.move_up();
    assert_eq!(v.get_selection(), 0);
    assert_eq!(v.offset, 0);
}

#[test]
fn set_selection_keeps_two_rows_ahead() {
    let mut v = view_of(&["a", "b", "c", "d", "e"], 3);
    // the smallest offset with 4 + 2 < 3 + offset
    v.set_selection(4);
    assert_eq!(v.get_selection(), 4);
    assert_eq!(v.offset, 4);
    v.set_selection(2);
    assert_eq!(v.offset, 2);
    v.set_selection(0);
    assert_eq!(v.offset, 0);
}

#[test]
fn find_selects_first_match() {
    let mut v = view_of(&["a.txt", "report.csv", "z.bin"], 10);
    assert_eq!(v.find_file("report"), Ok(()));
    assert_eq!(v.get_selection(), 1);
    assert_eq!(v.find_file("zzz"), Err(ListError::NotFound));
    assert_eq!(v.get_selection(), 1);
}

#[test]
fn find_ignores_case_of_names() {
    let mut v = view_of(&["a.txt", "REPORT.csv", "z.bin"], 10);
    assert_eq!(v.find_file("report"), Ok(()));
    assert_eq!(selected_name(&v), "REPORT.csv");
}

#[test]
fn first_match_in_takes_first() {
    let names = vec!["abc".to_string(), "xbcx".to_string(), "bc".to_string()];
    assert_eq!(first_match_in(&names, "bc"), Some(0));
    assert_eq!(first_match_in(&names, "x"), Some(1));
    assert_eq!(first_match_in(&names, "q"), None);
}

#[test]
fn reverse_twice_restores_order() {
    let mut v = view_of(&["b", "a", "c"], 10);
    let before: Vec<usize> = v.content.order.clone();
    v.reverse_sort();
    assert_eq!(v.content.order, vec![2, 0, 1]);
    assert_eq!(v.core.status, "Reversed sorting by: name");
    v.reverse_sort();
    assert_eq!(v.content.order, before);
}

#[test]
fn reverse_keeps_selected_entry() {
    let mut v = view_of(&["a", "b", "c", "d"], 10);
    v.move_down();
    assert_eq!(selected_name(&v), "b");
    v.reverse_sort();
    assert_eq!(selected_name(&v), "b");
    assert_eq!(v.get_selection(), 2);
}

#[test]
fn cycle_sort_three_times_returns() {
    let mut v = view_of(&["b", "a", "c"], 10);
    let before: Vec<usize> = v.content.order.clone();
    v.cycle_sort();
    assert_eq!(v.content.sort, SortBy::Size);
    assert_eq!(v.core.status, "Sorting by: size");
    v.cycle_sort();
    assert_eq!(v.content.sort, SortBy::MTime);
    v.cycle_sort();
    assert_eq!(v.content.sort, SortBy::Name);
    assert_eq!(v.content.order, before);
}

#[test]
fn sort_by_size_and_time() {
    let files = vec![file("a", 300, 5), file("b", 100, 9), file("c", 200, 1)];
    let mut v = ListView::new(frame(40, 10), Files::new(files));
    v.refresh();
    v.cycle_sort();
    assert_eq!(v.content.order, vec![1, 2, 0]);
    v.cycle_sort();
    assert_eq!(v.content.order, vec![1, 0, 2]);
}

#[test]
fn directories_come_first() {
    let files = vec![
        file("a", 1, 1),
        File::new("z".to_string(), "/d/z".to_string(), None, 1, true),
    ];
    let mut v = ListView::new(frame(40, 10), Files::new(files));
    v.refresh();
    assert_eq!(v.content.order, vec![1, 0]);
    v.toggle_dirs_first();
    assert_eq!(v.content.order, vec![0, 1]);
    assert_eq!(v.core.status, "Directories first: false");
}

#[test]
fn mtime_next_then_prev_returns() {
    let files = vec![file("a", 1, 30), file("b", 1, 10), file("c", 1, 20), file("d", 1, 40)];
    let mut v = ListView::new(frame(40, 10), Files::new(files));
    v.refresh();
    // newest first: d, a, c, b
    v.select_next_mtime();
    assert_eq!(selected_name(&v), "d");
    v.select_next_mtime();
    assert_eq!(selected_name(&v), "a");
    let at = v.get_selection();
    v.select_next_mtime();
    assert_eq!(selected_name(&v), "c");
    v.select_prev_mtime();
    assert_eq!(selected_name(&v), "a");
    assert_eq!(v.get_selection(), at);
    assert_eq!(v.content.sort, SortBy::Name);
}

#[test]
fn mtime_seek_wraps_at_ends() {
    let files = vec![file("a", 1, 30), file("b", 1, 10)];
    let mut v = ListView::new(frame(40, 10), Files::new(files));
    v.refresh();
    v.select_prev_mtime();
    assert_eq!(selected_name(&v), "b");
    v.select_prev_mtime();
    assert_eq!(selected_name(&v), "a");
    v.select_prev_mtime();
    assert_eq!(selected_name(&v), "b");
    v.move_down();
    v.select_next_mtime();
    assert_eq!(selected_name(&v), "a");
}

#[test]
fn filter_reduces_and_clearing_restores() {
    let mut v = view_of(&["apple", "banana", "cherry", "grape"], 10);
    v.filter(Some("ap".to_string()));
    assert_eq!(v.buffer.len(), 2);
    assert_eq!(v.lines, 2);
    assert_eq!(selected_name(&v), "apple");
    v.move_down();
    assert_eq!(selected_name(&v), "grape");
    v.filter(None);
    assert_eq!(v.buffer.len(), 4);
}

#[test]
fn filter_clamps_selection() {
    let mut v = view_of(&["apple", "banana", "cherry", "grape"], 10);
    v.set_selection(3);
    v.filter(Some("an".to_string()));
    assert_eq!(v.lines, 1);
    assert_eq!(v.get_selection(), 0);
}

#[test]
fn hidden_entries_toggle() {
    let mut v = view_of(&[".hid", "a", "b"], 10);
    assert_eq!(v.lines, 2);
    v.toggle_hidden();
    assert_eq!(v.lines, 3);
    assert_eq!(v.buffer.len(), 3);
    v.toggle_hidden();
    assert_eq!(v.lines, 2);
}

#[test]
fn tag_changes_one_line() {
    let mut v = view_of(&["a", "b", "c"], 10);
    let before = v.buffer.clone();
    v.toggle_tag();
    assert!(v.content.files[0].tagged);
    assert_ne!(v.buffer[0], before[0]);
    assert_eq!(v.buffer[1], before[1]);
    assert_eq!(v.buffer[2], before[2]);
    assert_eq!(v.get_selection(), 1);
    assert!(v.buffer[0].contains("<r>*"));
}

#[test]
fn multi_select_changes_one_line() {
    let mut v = view_of(&["a", "b", "c"], 10);
    v.move_down();
    let before = v.buffer.clone();
    v.multi_select_file();
    assert!(v.content.files[1].selected);
    assert_eq!(v.buffer[0], before[0]);
    assert_ne!(v.buffer[1], before[1]);
    assert_eq!(v.buffer[2], before[2]);
    assert_eq!(v.get_selection(), 2);
}

#[test]
fn render_line_exact() {
    let v = view_of(&["ab"], 10);
    let f = File::new("ab".to_string(), "/d/ab".to_string(), Some(10), 0, false);
    let mut w = ListView::new(frame(10, 3), Files::new(vec![]));
    w.refresh();
    let expected = format!("\x1b[s<n>ab{}<n>\x1b[u\x1b[8C<h>10", " ".repeat(8));
    assert_eq!(w.render_line(&f), expected);
    assert_eq!(v.lines, 1);
}

#[test]
fn render_line_marks_and_link() {
    let w = ListView::new(frame(12, 3), Files::new(vec![]));
    let mut f = File::new("ab".to_string(), "/d/ab".to_string(), Some(2048), 0, false);
    f.toggle_tag();
    f.toggle_selection();
    f.target = Some("/x".to_string());
    let expected = format!(
        "\x1b[s<r>*<n><y>  ab{}<n>\x1b[u\x1b[4C<y>--> <h><h>2 KB",
        " ".repeat(7)
    );
    assert_eq!(w.render_line(&f), expected);
}

#[test]
fn calculate_size_units() {
    assert_eq!(file("a", 2048, 0).calculate_size(), (2, " KB".to_string()));
    assert_eq!(file("a", 1024, 0).calculate_size(), (1024, "".to_string()));
    assert_eq!(file("a", 3 * 1024 * 1024 * 1024, 0).calculate_size(), (3, " GB".to_string()));
    let d = File::new("d".to_string(), "/d".to_string(), None, 0, true);
    assert_eq!(d.calculate_size(), (0, "".to_string()));
}

#[test]
fn drawlist_rows_and_filler() {
    let mut v = view_of(&["a", "b"], 3);
    v.buffer = vec!["L0".to_string(), "L1".to_string()];
    let d = v.get_drawlist();
    let blank = " ".repeat(40);
    let expected = format!(
        "<x><n><i>\x1b[1;1HL0<x><n>\x1b[2;1HL1<x>\x1b[3;1H{}",
        blank
    );
    assert_eq!(d, expected);
}

#[test]
fn keys_dispatch() {
    let mut v = view_of(&["a", "b", "c"], 10);
    assert!(matches!(v.on_key(Key::Down), KeyOutcome::Handled));
    assert_eq!(v.get_selection(), 1);
    assert!(matches!(v.on_key(Key::Char('p')), KeyOutcome::Handled));
    assert_eq!(v.get_selection(), 0);
    assert!(matches!(v.on_key(Key::Char('N')), KeyOutcome::Handled));
    assert_eq!(v.get_selection(), 2);
    assert!(matches!(v.on_key(Key::Char('P')), KeyOutcome::Handled));
    assert_eq!(v.get_selection(), 0);
    assert!(matches!(v.on_key(Key::Ctrl('s')), KeyOutcome::PromptFind));
    assert!(matches!(v.on_key(Key::Char('F')), KeyOutcome::PromptFilter));
    assert!(matches!(v.on_key(Key::Char('x')), KeyOutcome::Unhandled));
    match v.on_key(Key::Right) {
        KeyOutcome::Open(p) => assert_eq!(p, "/d/a"),
        _ => panic!("expected a path"),
    }
}

#[test]
fn grand_parent_paths() {
    let mut v = ListView::new(
        frame(40, 10),
        Files::new(vec![File::new("c".to_string(), "/a/b/c".to_string(), None, 0, false)]),
    );
    v.refresh();
    assert_eq!(v.grand_parent(), Some("/a".to_string()));
    assert_eq!(v.goto_grand_parent(), Some("/a".to_string()));
    let mut w = ListView::new(
        frame(40, 10),
        Files::new(vec![File::new("c".to_string(), "/c".to_string(), None, 0, false)]),
    );
    w.refresh();
    assert_eq!(w.goto_grand_parent(), None);
    assert_eq!(w.core.status, "Can't go further!");
}

#[test]
fn goto_path_replaces_or_reports() {
    let mut v = view_of(&["a", "b", "c"], 10);
    v.move_down();
    v.goto_path(Err("denied".to_string()));
    assert_eq!(v.core.status, "Can't open this path: denied");
    assert_eq!(v.get_selection(), 1);
    v.goto_path(Ok(Files::new(vec![file("x", 1, 1)])));
    assert_eq!(v.get_selection(), 0);
    assert_eq!(v.lines, 1);
    assert_eq!(v.buffer.len(), 1);
}

#[test]
fn empty_view_is_safe() {
    let mut v = view_of(&[], 3);
    v.move_down();
    v.move_up();
    v.cycle_sort();
    v.select_next_mtime();
    v.select_prev_mtime();
    v.toggle_tag();
    assert_eq!(v.get_selection(), 0);
    assert_eq!(v.grand_parent(), None);
}

#[test]
fn cursor_directives_in_lines() {
    let w = ListView::new(frame(20, 3), Files::new(vec![]));
    let f = File::new("x".to_string(), "/x".to_string(), Some(4096), 0, false);
    let line = w.render_line(&f);
    assert!(line.starts_with("\x1b[s"));
    assert!(line.contains("\x1b[u\x1b[16C"));
    assert!(line.ends_with("4 KB"));
    let mut v = view_of(&["a"], 1);
    v.core.xpos = 3;
    v.core.ypos = 7;
    v.buffer = vec!["L".to_string()];
    assert_eq!(v.get_drawlist(), "<x><n><i>\x1b[7;3HL<x>");
}

#[test]
fn widths_and_sizing() {
    assert_eq!(byte_len("a漢"), 4);
    assert_eq!(sized_string("abcdef", 4), "abc");
    assert_eq!(sized_string("漢字漢", 4), "漢字");
    let mut s = "ab".to_string();
    pad(&mut s, 5);
    assert_eq!(s, "ab   ");
}

#[test]
fn listable_capabilities() {
    let mut v = view_of(&["a", "b", ".c"], 10);
    assert_eq!(Listable::len(&v), 2);
    assert_eq!(Listable::render(&v).len(), 2);
    assert_eq!(v.render_header(), "");
    assert_eq!(v.render_footer(), "");
    v.content.dirty = true;
    v.core.dirty = false;
    Listable::on_refresh(&mut v);
    assert!(v.core.dirty);
    assert!(!v.content.dirty);
    assert!(matches!(Listable::on_key(&mut v, Key::Down), KeyOutcome::Handled));
    assert_eq!(v.get_selection(), 1);
}

#[test]
fn find_query_ignores_case() {
    let mut v = view_of(&["a.txt", "report.csv", "z.bin"], 10);
    assert_eq!(v.find_file("REPORT"), Ok(()));
    assert_eq!(v.get_selection(), 1);
    assert_eq!(v.find_file("ZZZ"), Err(ListError::NotFound));
    assert_eq!(v.get_selection(), 1);
}

#[test]
fn find_goes_by_display_order() {
    let files = vec![file("b-x", 1, 1), file("a-x", 1, 1)];
    let mut v = ListView::new(frame(40, 10), Files::new(files));
    v.refresh();
    v.move_down();
    assert_eq!(v.find_file("x"), Ok(()));
    assert_eq!(v.get_selection(), 0);
    assert_eq!(selected_name(&v), "a-x");
}

#[test]
fn new_keeps_core_and_counts_nothing() {
    let mut c = frame(40, 10);
    c.status = "ready".to_string();
    let v = ListView::new(c, Files::new(vec![file("a", 1, 1)]));
    assert_eq!(v.lines, 0);
    assert_eq!(v.get_selection(), 0);
    assert!(v.buffer.is_empty());
    assert!(!v.core.dirty);
    assert_eq!(v.core.status, "ready");
}

#[test]
fn reorder_keeps_entry_by_value() {
    let files = vec![
        File::new("a".to_string(), "/same".to_string(), Some(1), 1, false),
        File::new("b".to_string(), "/same".to_string(), Some(2), 2, false),
    ];
    let mut v = ListView::new(frame(40, 10), Files::new(files));
    v.refresh();
    v.move_down();
    assert_eq!(selected_name(&v), "b");
    v.reverse_sort();
    assert_eq!(selected_name(&v), "b");
    assert_eq!(v.get_selection(), 0);
}
