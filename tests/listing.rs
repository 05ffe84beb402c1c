use dir::color::{classify, color_by_ext, colorize, format_color, resolve_color};
use dir::entry::{get_filename_ext, kind_from_mode, Entry, FileKind, Timestamp};
use dir::fields::{format_attributes, format_permissions, format_size, recent_time};
use dir::layout::{column_widths, determine_column_widths, determine_min_column_width, display_width, ColumnInfo};
use dir::render::{format_entry, format_wide_entry, show_listing, show_wide_listing};
use dir::settings::{insert_extension_color, Settings, SortKey, FM_EXEC, FM_STICKY, FM_SUID, FT_DIR, FT_FILE};
use dir::sort::{entry_order, sort_entries, sorter_dirs_first, sorter_fn_extension};
use std::cmp::Ordering;

fn file(name: &str, size: u64) -> Entry {
    Entry::new(name.to_string(), FileKind::File, size, None, Some(0o100644), None, None).unwrap()
}

fn directory(name: &str) -> Entry {
    Entry::new(name.to_string(), FileKind::Directory, 0, None, Some(0o040755), None, None).unwrap()
}

fn names(entries: &[Entry]) -> Vec<String> {
    entries.iter().map(|e| e.name.clone()).collect()
}

fn plain_settings() -> Settings {
    let mut s = Settings::new();
    s.color = false;
    s.classify = false;
    s
}

#[test]
fn name_sort_puts_directory_first_then_case_insensitive() {
    let mut entries = vec![file("a.txt", 5), directory("zdir"), file("B.TXT", 900000)];
    let settings = Settings::new();
    sort_entries(&mut entries, &settings);
    assert_eq!(names(&entries), vec!["zdir", "a.txt", "B.TXT"]);
}

#[test]
fn name_sort_is_idempotent() {
    let mut entries = vec![
        file("b", 1),
        file("A", 2),
        directory("x"),
        file("a", 3),
        directory("C"),
    ];
    let settings = Settings::new();
    sort_entries(&mut entries, &settings);
    let once = names(&entries);
    sort_entries(&mut entries, &settings);
    assert_eq!(names(&entries), once);
    assert_eq!(once, vec!["C", "x", "A", "a", "b"]);
}

#[test]
fn extension_sort_scenario() {
    let mut entries = vec![file("file.B", 1), file("file.a", 1), directory("dir.x")];
    let mut settings = Settings::new();
    settings.sort_key = SortKey::Extension;
    sort_entries(&mut entries, &settings);
    assert_eq!(names(&entries), vec!["dir.x", "file.a", "file.B"]);
}

#[test]
fn extension_sort_puts_no_extension_first_and_falls_back_to_name() {
    let mut entries = vec![file("b.txt", 1), file("Makefile", 1), file("a.TXT", 1), file("c.rs", 1)];
    let mut settings = Settings::new();
    settings.sort_key = SortKey::Extension;
    sort_entries(&mut entries, &settings);
    assert_eq!(names(&entries), vec!["Makefile", "c.rs", "a.TXT", "b.txt"]);
}

#[test]
fn reverse_puts_directories_last() {
    let mut entries = vec![directory("d"), file("a", 1), file("b", 1)];
    let mut settings = Settings::new();
    settings.sort_reverse = true;
    sort_entries(&mut entries, &settings);
    assert_eq!(names(&entries), vec!["b", "a", "d"]);
    settings.sort_key = SortKey::Extension;
    sort_entries(&mut entries, &settings);
    assert_eq!(names(&entries), vec!["b", "a", "d"]);
}

#[test]
fn directory_compares_before_file_under_name_and_extension() {
    let d = directory("zz.top");
    let f = file("a", 1);
    assert_eq!(sorter_dirs_first(&d, &f), Ordering::Less);
    assert_eq!(sorter_dirs_first(&f, &d), Ordering::Greater);
    assert_eq!(sorter_fn_extension(&d, &f), Ordering::Less);
    assert_eq!(sorter_fn_extension(&f, &d), Ordering::Greater);
}

#[test]
fn size_sort_is_stable() {
    let mut entries = vec![file("x", 10), file("y", 5), file("z", 10), file("w", 1)];
    let mut settings = Settings::new();
    settings.sort_key = SortKey::Size;
    sort_entries(&mut entries, &settings);
    assert_eq!(names(&entries), vec!["w", "y", "x", "z"]);
    settings.sort_reverse = true;
    let mut entries = vec![file("x", 10), file("y", 5), file("z", 10), file("w", 1)];
    sort_entries(&mut entries, &settings);
    assert_eq!(names(&entries), vec!["x", "z", "y", "w"]);
}

#[test]
fn time_sort_uses_epoch_for_unknown_times() {
    let mut a = file("a", 1);
    a.modified = Some(Timestamp { secs: 100, nanos: 0 });
    let b = file("b", 1);
    let mut c = file("c", 1);
    c.modified = Some(Timestamp { secs: 100, nanos: 5 });
    let mut d = file("d", 1);
    d.modified = Some(Timestamp { secs: -5, nanos: 0 });
    let mut entries = vec![a, b, c, d];
    let mut settings = Settings::new();
    settings.sort_key = SortKey::Time;
    sort_entries(&mut entries, &settings);
    assert_eq!(names(&entries), vec!["d", "b", "a", "c"]);
    assert_eq!(entries[1].mtime(), Timestamp::epoch());
}

#[test]
fn entry_order_follows_settings() {
    let mut settings = Settings::new();
    settings.sort_key = SortKey::Size;
    assert_eq!(entry_order(&file("a", 1), &file("b", 2), &settings), Ordering::Less);
    settings.sort_reverse = true;
    assert_eq!(entry_order(&file("a", 1), &file("b", 2), &settings), Ordering::Greater);
}

#[test]
fn exec_color_wins_over_extension_color() {
    let mut settings = Settings::new();
    settings.color_by_mode[FM_EXEC] = 32;
    insert_extension_color(&mut settings.color_by_extension, "sh".to_string(), 33);
    let exe = Entry::new("run.sh".to_string(), FileKind::File, 1, None, Some(0o100755), None, None)
        .unwrap();
    assert_eq!(resolve_color(&exe, &settings), Some((32, true)));
    let plain = file("notes.sh", 1);
    assert_eq!(resolve_color(&plain, &settings), Some((33, true)));
}

#[test]
fn color_precedence_of_special_bits_and_directories() {
    let mut settings = Settings::new();
    settings.bold = false;
    settings.color_by_mode[FM_SUID] = 31;
    settings.color_by_mode[FM_STICKY] = 44;
    settings.color_by_filetype[FT_DIR] = 34;
    settings.color_by_filetype[FT_FILE] = 0;
    let suid = Entry::new("su".to_string(), FileKind::File, 1, None, Some(0o104755), None, None)
        .unwrap();
    assert_eq!(resolve_color(&suid, &settings), Some((31, false)));
    let sticky_dir =
        Entry::new("tmp".to_string(), FileKind::Directory, 0, None, Some(0o041777), None, None)
            .unwrap();
    assert_eq!(resolve_color(&sticky_dir, &settings), Some((44, false)));
    assert_eq!(resolve_color(&directory("home"), &settings), Some((34, false)));
    assert_eq!(resolve_color(&file("x", 1), &settings), None);
    settings.color = false;
    assert_eq!(resolve_color(&directory("home"), &settings), None);
    assert_eq!(colorize(&directory("home"), &settings), None);
}

#[test]
fn extension_color_is_case_insensitive() {
    let mut settings = Settings::new();
    insert_extension_color(&mut settings.color_by_extension, "txt".to_string(), 36);
    insert_extension_color(&mut settings.color_by_extension, "txt".to_string(), 35);
    assert_eq!(settings.color_by_extension.len(), 1);
    assert_eq!(color_by_ext("README.TXT", &settings), Some(35));
    assert_eq!(color_by_ext("README", &settings), None);
    assert_eq!(color_by_ext("a.rs", &settings), None);
}

#[test]
fn format_color_codes() {
    assert_eq!(format_color(0, true), None);
    assert_eq!(format_color(31, true), Some("\x1b[31;1m".to_string()));
    assert_eq!(format_color(31, false), Some("\x1b[31m".to_string()));
    assert_eq!(format_color(41, true), Some("\x1b[41m".to_string()));
    assert_eq!(format_color(7, true), Some("\x1b[7;1m".to_string()));
}

#[test]
fn classify_marks() {
    let mut settings = Settings::new();
    let exe = Entry::new("x".to_string(), FileKind::File, 1, None, Some(0o100700), None, None)
        .unwrap();
    assert_eq!(classify(&exe, &settings), Some('*'));
    assert_eq!(classify(&file("f", 1), &settings), None);
    assert_eq!(classify(&directory("d"), &settings), Some('/'));
    let link = Entry::new(
        "l".to_string(),
        FileKind::Symlink,
        1,
        None,
        Some(0o120777),
        None,
        Some("target".to_string()),
    )
    .unwrap();
    assert_eq!(classify(&link, &settings), None);
    settings.long = false;
    assert_eq!(classify(&link, &settings), Some('@'));
    let fifo = Entry::new("p".to_string(), FileKind::Fifo, 0, None, Some(0o010644), None, None)
        .unwrap();
    assert_eq!(classify(&fifo, &settings), Some('|'));
    let sock = Entry::new("s".to_string(), FileKind::Socket, 0, None, Some(0o140644), None, None)
        .unwrap();
    assert_eq!(classify(&sock, &settings), Some('='));
    settings.classify = false;
    assert_eq!(classify(&directory("d"), &settings), None);
}

#[test]
fn entry_flags() {
    assert!(Entry::new(String::new(), FileKind::File, 0, None, None, None, None).is_none());
    let e = Entry::new(".hidden".to_string(), FileKind::Fifo, 0, None, Some(0o011000), None, None)
        .unwrap();
    assert!(e.is_hidden());
    assert!(e.is_fifo());
    assert!(e.is_sticky());
    assert!(!e.is_suid());
    assert!(!e.is_sgid());
    assert!(!e.is_exec());
    let w = Entry::new("tool.EXE".to_string(), FileKind::File, 0, None, None, Some(2), None).unwrap();
    assert!(w.is_exec());
    assert!(w.is_hidden());
    let link_dropped =
        Entry::new("f".to_string(), FileKind::File, 0, None, None, None, Some("t".to_string()))
            .unwrap();
    assert_eq!(link_dropped.link_target, None);
    assert_eq!(kind_from_mode(0o040755), FileKind::Directory);
    assert_eq!(kind_from_mode(0o120777), FileKind::Symlink);
    assert_eq!(kind_from_mode(0o060600), FileKind::BlockDevice);
    assert_eq!(kind_from_mode(0o020600), FileKind::CharDevice);
    assert_eq!(kind_from_mode(0), FileKind::File);
}

#[test]
fn filename_extensions() {
    assert_eq!(get_filename_ext("a"), None);
    assert_eq!(get_filename_ext("a.b.c"), Some("c".to_string()));
    assert_eq!(get_filename_ext("file."), Some(String::new()));
    assert_eq!(get_filename_ext(".bashrc"), Some("bashrc".to_string()));
}

#[test]
fn min_column_width_is_capped_by_terminal() {
    assert_eq!(determine_min_column_width(&vec![5, 3, 9], 80), 5);
    assert_eq!(determine_min_column_width(&vec![100], 80), 80);
    assert_eq!(determine_min_column_width(&vec![], 80), 80);
}

#[test]
fn three_entries_of_width_five_in_twenty_columns() {
    let widths = vec![5, 5, 5];
    assert_eq!(determine_min_column_width(&widths, 20), 7);
    assert_eq!(column_widths(&widths, 20), vec![7, 5]);
}

#[test]
fn layout_chooses_largest_fitting_column_count() {
    // seven entries; three columns need 12 + 10 + 3 = 25, four need 30, five need 32
    let widths = vec![10, 3, 3, 3, 8, 3, 3];
    let plan = column_widths(&widths, 25);
    assert_eq!(plan, vec![12, 10, 3]);
    assert!(plan.iter().sum::<usize>() <= 25);
    // one character less and three columns no longer fit; two need 12 + 8
    let narrower = column_widths(&widths, 24);
    assert_eq!(narrower, vec![12, 8]);
}

#[test]
fn layout_degenerate_cases() {
    assert_eq!(column_widths(&vec![], 80), vec![80]);
    assert_eq!(column_widths(&vec![12], 80), vec![80]);
    assert_eq!(column_widths(&vec![100, 3], 80), vec![80]);
    assert_eq!(column_widths(&vec![3, 3], 0), vec![0]);
    assert_eq!(column_widths(&vec![50, 50], 80), vec![80]);
}

#[test]
fn column_info_starts_empty() {
    let info = ColumnInfo::new();
    assert!(info.valid);
    assert_eq!(info.line_length, 0);
    assert!(info.column_widths.is_empty());
}

#[test]
fn display_width_counts_mark() {
    let settings = Settings::new();
    assert_eq!(display_width(&directory("src"), &settings), 4);
    assert_eq!(display_width(&file("héllo", 1), &settings), 5);
    let entries = vec![directory("src"), file("a", 1)];
    // the narrowest entry needs 3, so up to 26 columns are tried; all fit
    let mut expected = vec![0; 26];
    expected[0] = 6;
    expected[1] = 3;
    assert_eq!(determine_column_widths(&entries, &settings, 80), expected);
}

#[test]
fn wide_listing_of_nothing_has_no_lines() {
    assert!(show_wide_listing(&vec![], &plain_settings(), 80).is_empty());
}

#[test]
fn wide_listing_of_one_entry_is_one_line() {
    let lines = show_wide_listing(&vec![file("only", 1)], &plain_settings(), 80);
    assert_eq!(lines, vec!["only".to_string()]);
}

#[test]
fn wide_listing_pads_columns() {
    let entries = vec![file("aaaaa", 1), file("bbbbb", 1), file("ccccc", 1)];
    let lines = show_wide_listing(&entries, &plain_settings(), 20);
    assert_eq!(lines, vec!["aaaaa  ccccc".to_string(), "bbbbb".to_string()]);
}

#[test]
fn wide_listing_column_major() {
    let entries: Vec<Entry> = ["a", "bb", "c", "dddd", "e"].iter().map(|n| file(n, 1)).collect();
    let lines = show_wide_listing(&entries, &plain_settings(), 12);
    // three columns: widths 4 (a, bb), 6 (c, dddd), 1 (e)
    assert_eq!(lines, vec!["a   c     e".to_string(), "bb  dddd".to_string()]);
}

#[test]
fn wide_entry_with_color_and_mark() {
    let mut settings = Settings::new();
    settings.color_by_filetype[FT_DIR] = 34;
    assert_eq!(format_wide_entry(&directory("src"), &settings), "\x1b[34;1msrc\x1b[0m/");
    assert_eq!(format_wide_entry(&file("a", 1), &settings), "a");
}

#[test]
fn size_formats() {
    assert_eq!(format_size(0), "0");
    assert_eq!(format_size(899), "899");
    assert_eq!(format_size(900), "0.9 kB");
    assert_eq!(format_size(1500), "1.5 kB");
    assert_eq!(format_size(899_999), "900.0 kB");
    assert_eq!(format_size(900_000), "0.9 MB");
    assert_eq!(format_size(999_949), "1.0 MB");
    assert_eq!(format_size(5_000_000_000), "5.0 GB");
    assert_eq!(format_size(u64::MAX), "18.4 EB");
}

#[test]
fn permission_strings() {
    assert_eq!(format_permissions(0o100755), "-rwxr-xr-x");
    assert_eq!(format_permissions(0o104755), "-rwsr-xr-x");
    assert_eq!(format_permissions(0o102644), "-rw-r-Sr--");
    assert_eq!(format_permissions(0o041777), "drwxrwxrwt");
    assert_eq!(format_permissions(0o041776), "drwxrwxrwT");
    assert_eq!(format_permissions(0o120777), "lrwxrwxrwx");
    assert_eq!(format_permissions(0o010600), "prw-------");
    assert_eq!(format_permissions(0o140000), "s---------");
}

#[test]
fn attribute_strings() {
    assert_eq!(format_attributes(0), "   ");
    assert_eq!(format_attributes(7), "RHS");
    assert_eq!(format_attributes(2), " H ");
}

#[test]
fn time_format_choice() {
    assert!(recent_time(2024, 2024, -300));
    assert!(recent_time(2023, 2024, -90));
    assert!(!recent_time(2023, 2024, -91));
}

#[test]
fn long_lines() {
    let mut settings = Settings::new();
    settings.color = false;
    let line = format_entry(&file("a.txt", 1500), &settings, "Jan 01 12:00");
    assert_eq!(line, "Jan 01 12:00  -rw-r--r--    1.5 kB  a.txt");
    let line = format_entry(&directory("src"), &settings, "Jan 01 12:00");
    assert_eq!(line, "Jan 01 12:00  drwxr-xr-x   <DIR>    src/");
    let link = Entry::new(
        "l".to_string(),
        FileKind::Symlink,
        4,
        None,
        Some(0o120777),
        None,
        Some("/tmp".to_string()),
    )
    .unwrap();
    let line = format_entry(&link, &settings, "T");
    assert_eq!(line, "T  lrwxrwxrwx         4  l -> /tmp");
    let win = Entry::new("w".to_string(), FileKind::File, 10, None, None, Some(1), None).unwrap();
    assert_eq!(format_entry(&win, &settings, "T"), format!("T  {}10  w", " ".repeat(6)));
    settings.all = true;
    assert_eq!(format_entry(&win, &settings, "T"), format!("T  R    {}10  w", " ".repeat(6)));
    settings.one = true;
    assert_eq!(format_entry(&win, &settings, "T"), "w");
}

#[test]
fn listing_hides_dot_files_unless_all() {
    let mut settings = Settings::new();
    settings.color = false;
    let entries = vec![file(".hidden", 1), file("shown", 2)];
    let times = vec!["T1".to_string(), "T2".to_string()];
    let lines = show_listing(&entries, &settings, 80, &times);
    assert_eq!(lines, vec!["T2  -rw-r--r--         2  shown".to_string()]);
    settings.all = true;
    settings.long = false;
    let lines = show_listing(&entries, &settings, 80, &times);
    assert_eq!(lines, vec![".hidden  shown".to_string()]);
}
