use syskits::listing::{
    any_quoted, block_count, calculate_padding_collection, classify_file, create_hyperlink,
    display_additional_leading_info, display_commas, display_item_name, display_one_line_grid,
    display_one_per_line, display_permissions, file_is_executable, grid_cell_text, indicator_char, is_hidden,
    len_adjusted, long_line_known, long_line_unknown, order_by_key_desc, raw_block_size, recursion_targets,
    should_display, size_text_bytes, sort_entries, already_listed, order_by_version, order_by_extension, order_by_width, enter_step, leave_step, EnterAction, total_line, total_size, directories_first, EntryLens, FileKind,
    LongFields, LsPadding, NameCell, grid_text, SizeField, date_format, device_field, is_recent, escape_name,
};
use syskits::ls::{
    check_dired, choose_width, display_total, extract_dereference, extract_sort, extract_time, ignore_patterns,
    indicator_str_to_type, ls_extract_format, ls_format_str_to_type, pad_left, pad_right, parse_width,
    sort_str_to_type, LsArgs, LsConfig, LsDereference, LsError, LsFiles, LsFormat, LsIndicatorStyle, LsIndices,
    LsLongFormat, LsSizeFormat, LsSort, LsTime, LsTimeStyle, is_color_compatible_term, parse_size, QuotingStyle, IoFailure,
};

fn cell(s: &str, w: usize) -> NameCell {
    NameCell { contents: s.to_string(), width: w }
}

#[test]
fn format_sort_and_indicator_names() {
    assert_eq!(ls_format_str_to_type("verbose"), LsFormat::Long);
    assert_eq!(ls_format_str_to_type("horizontal"), LsFormat::Across);
    assert_eq!(sort_str_to_type("none"), LsSort::Unsorted);
    assert_eq!(sort_str_to_type("width"), LsSort::Width);
    assert_eq!(indicator_str_to_type("slash"), LsIndicatorStyle::Slash);
    assert_eq!(indicator_str_to_type("bogus"), LsIndicatorStyle::NoIndicator);
    assert_eq!(extract_time(Some("atime"), false, false), LsTime::LsAccess);
    assert_eq!(extract_time(None, false, true), LsTime::LsChange);
    assert_eq!(extract_sort(None, true, false, false, false, false), LsSort::Time);
}

#[test]
fn format_options() {
    assert_eq!(ls_extract_format(None, true, false, false, false, true), (LsFormat::Long, 2));
    assert_eq!(ls_extract_format(None, false, false, false, false, true), (LsFormat::Columns, 0));
    assert_eq!(ls_extract_format(None, false, false, false, false, false), (LsFormat::OneLine, 0));
    assert_eq!(ls_extract_format(Some("commas"), true, false, false, false, false), (LsFormat::Commas, 1));
}

#[test]
fn widths() {
    assert_eq!(parse_width("80").unwrap(), 80);
    assert_eq!(parse_width("010").unwrap(), 8);
    assert_eq!(parse_width("99999").unwrap(), 65535);
    let e = parse_width("x").unwrap_err();
    assert_eq!(e.message(), "invalid line width: 'x'");
    assert_eq!(e.code(), 2);
    assert_eq!(choose_width(None, Some(120), Some("50")).unwrap(), (120, None));
    assert_eq!(choose_width(None, None, Some("50")).unwrap(), (50, None));
    assert_eq!(
        choose_width(None, None, Some("abc")).unwrap(),
        (80, Some("ignoring invalid width in environment variable COLUMNS: 'abc'".to_string()))
    );
}

#[test]
fn padding_text() {
    assert_eq!(pad_left("ab", 4), "  ab");
    assert_eq!(pad_right("ab", 4), "ab  ");
    assert_eq!(pad_left("abcde", 2), "abcde");
}

#[test]
fn dired_and_dereference() {
    assert!(matches!(check_dired(true, LsFormat::Long, true), Err(LsError::LsDiredAndZeroAreIncompatible)));
    assert!(matches!(check_dired(true, LsFormat::Long, false), Ok(true)));
    assert!(matches!(check_dired(true, LsFormat::Columns, false), Ok(false)));
    assert_eq!(
        extract_dereference(false, false, false, false, LsIndicatorStyle::NoIndicator, LsFormat::Long),
        LsDereference::LsNone
    );
    assert_eq!(
        extract_dereference(false, false, false, false, LsIndicatorStyle::NoIndicator, LsFormat::Columns),
        LsDereference::LsDirArgs
    );
}

#[test]
fn totals() {
    assert_eq!(display_total(1000, LsSizeFormat::Bytes, 1024), 1);
    assert_eq!(display_total(2048, LsSizeFormat::Bytes, 1024), 2);
    assert_eq!(display_total(1000, LsSizeFormat::Binary, 1024), 1000);
    assert_eq!(total_size(&[512, 1024, 0]), 1536);
    assert_eq!(total_line("12", false), "total 12\n");
    assert_eq!(total_line("12", true), "total 12\0");
}

#[test]
fn ignored_patterns() {
    let (ok, bad) = ignore_patterns(true, &vec!["*.o".to_string(), "[".to_string()], &vec![".*".to_string()], true);
    assert_eq!(ok, vec!["*~".to_string(), ".*~".to_string(), "*.o".to_string(), ".*".to_string()]);
    assert_eq!(bad, vec!["Invalid pattern for ignore: '['".to_string()]);
}

#[test]
fn mode_strings() {
    assert_eq!(display_permissions(0o040755), "drwxr-xr-x");
    assert_eq!(display_permissions(0o100644), "-rw-r--r--");
    assert_eq!(display_permissions(0o104755), "-rwsr-xr-x");
    assert_eq!(display_permissions(0o041777), "drwxrwxrwt");
    assert_eq!(display_permissions(0o102644), "-rw-r-Sr--");
    assert_eq!(display_permissions(0o120777), "lrwxrwxrwx");
    assert_eq!(display_permissions(0o020620), "crw--w----");
}

#[test]
fn type_indicators() {
    assert!(file_is_executable(0o100700));
    assert!(!file_is_executable(0o100644));
    assert_eq!(classify_file(Some(FileKind::Dir), None), Some('/'));
    assert_eq!(classify_file(Some(FileKind::File), Some(0o100755)), Some('*'));
    assert_eq!(classify_file(Some(FileKind::File), None), None);
    assert_eq!(classify_file(Some(FileKind::Fifo), None), Some('|'));
    assert_eq!(classify_file(None, None), None);
    assert_eq!(indicator_char(LsIndicatorStyle::FileType, Some('*')), None);
    assert_eq!(indicator_char(LsIndicatorStyle::FileType, Some('@')), Some('@'));
    assert_eq!(indicator_char(LsIndicatorStyle::Slash, Some('@')), None);
    assert_eq!(indicator_char(LsIndicatorStyle::Slash, Some('/')), Some('/'));
    assert_eq!(indicator_char(LsIndicatorStyle::Classify, Some('*')), Some('*'));
}

#[test]
fn sizes() {
    assert_eq!(len_adjusted(0, 1024), 0);
    assert_eq!(len_adjusted(1, 1024), 1);
    assert_eq!(len_adjusted(2048, 1024), 2);
    assert_eq!(raw_block_size(Some(FileKind::File), 8), 4096);
    assert_eq!(raw_block_size(Some(FileKind::CharDevice), 8), 0);
    assert_eq!(block_count(4096, LsSizeFormat::Bytes, 1024), 4);
    assert_eq!(block_count(4096, LsSizeFormat::Decimal, 1024), 4096);
    assert_eq!(size_text_bytes(42, ""), "42");
    assert_eq!(size_text_bytes(42, "K"), "42K");
}

#[test]
fn which_entries_are_shown() {
    let patterns = vec!["*.o".to_string()];
    assert!(should_display("main.c", LsFiles::LsNormal, &patterns));
    assert!(!should_display("main.o", LsFiles::LsNormal, &patterns));
    assert!(!should_display(".hidden", LsFiles::LsNormal, &patterns));
    assert!(should_display(".hidden", LsFiles::LsAlmostAll, &patterns));
    // A leading dot must be matched by a dot.
    assert!(should_display(".x", LsFiles::LsAll, &vec!["*x".to_string()]));
    assert!(is_hidden(".a"));
    assert!(!is_hidden("a."));
    assert_eq!(recursion_targets(LsFiles::LsAll, &[true, true, false, true]), vec![3]);
    assert_eq!(recursion_targets(LsFiles::LsNormal, &[true, false, true]), vec![0, 2]);
}

#[test]
fn name_cells() {
    let c = display_item_name("dir", "dir", "", LsFormat::Columns, Some('/'), None, None);
    assert_eq!(c.contents, "dir/");
    assert_eq!(c.width, 4);
    let c = display_item_name("f", "f", "12 ", LsFormat::Columns, None, None, Some(("ctx", 5)));
    assert_eq!(c.contents, "  ctx 12 f");
    assert_eq!(c.width, 1 + 3 + 6);
    let c = display_item_name("link", "link", "", LsFormat::Long, Some('@'), Some("target"), None);
    assert_eq!(c.contents, "link@ -> target");
    assert_eq!(c.width, 5);
    let c = display_item_name("中", "中", "", LsFormat::Columns, None, None, None);
    assert_eq!(c.width, 2);
}

#[test]
fn hyperlinks() {
    let h = create_hyperlink("a b", "host", "/tmp/a b");
    assert_eq!(h, "\x1b]8;;file://host/tmp/a%20b\x07a b\x1b]8;;\x07");
}

fn long() -> LsLongFormat {
    LsLongFormat { is_author: false, is_group: true, is_owner: true, is_numeric_uid_gid: false }
}

fn padding() -> LsPadding {
    LsPadding { inode: 1, link_count: 2, uname: 5, group: 5, context: 1, size: 4, major: 1, minor: 1, block_size: 1 }
}

#[test]
fn long_lines() {
    let f = LongFields {
        permissions: "-rw-r--r--".to_string(),
        acl: false,
        link_count: "1".to_string(),
        owner: "alice".to_string(),
        group: "staff".to_string(),
        size: SizeField::Size("42".to_string()),
        date: "Jan  1 00:00".to_string(),
    };
    let line = long_line_known(&f, "?", "notes.txt", &padding(), long(), false, false, false, false);
    assert_eq!(line, "-rw-r--r--  1 alice staff   42 Jan  1 00:00 notes.txt\n");
    let line = long_line_known(&f, "?", "notes.txt", &padding(), long(), false, true, true, true);
    assert_eq!(line, "  -rw-r--r--  1 alice staff   42 Jan  1 00:00  notes.txt\0");
    let d = LongFields { size: SizeField::Device("8".to_string(), "1".to_string()), acl: true, ..f };
    let line = long_line_known(&d, "?", "sda1", &padding(), long(), false, false, false, false);
    assert_eq!(line, "-rw-r--r--+  1 alice staff 8, 1 Jan  1 00:00 sda1\n");
    let line = long_line_unknown(Some(FileKind::Dir), "?", "gone", &padding(), long(), false, false, false);
    assert_eq!(line, "d?????????  ? ?     ?        ?            ? gone\n");
}

#[test]
fn column_widths() {
    let e = |md: bool, link: usize, size: usize| EntryLens {
        has_metadata: md,
        inode: 3,
        block_size: 2,
        context: 1,
        link_count: link,
        uname: 4,
        group: 5,
        size,
        major: 0,
        minor: 0,
    };
    let p = calculate_padding_collection(&[e(true, 2, 4), e(true, 1, 7)], false, false, true, false);
    assert_eq!(p.link_count, 2);
    assert_eq!(p.size, 7);
    assert_eq!(p.uname, 4);
    assert_eq!(p.inode, 1);
    let p = calculate_padding_collection(&[e(true, 2, 4)], true, false, true, false);
    assert_eq!(p.size, 0);
    assert_eq!(p.inode, 3);
    let p = calculate_padding_collection(&[e(false, 9, 9), e(true, 1, 2)], true, true, true, false);
    assert_eq!(p.link_count, 1);
    assert_eq!(p.block_size, 2);
}

#[test]
fn leading_information() {
    let p = LsPadding { inode: 5, block_size: 3, ..padding() };
    assert_eq!(display_additional_leading_info(Some(42), Some("8"), &p, true, true, LsFormat::Columns), "   42   8 ");
    assert_eq!(display_additional_leading_info(None, None, &p, true, true, LsFormat::Commas), "    ? ? ");
}

#[test]
fn short_formats() {
    let cells = vec![cell("alpha", 5), cell("beta", 4), cell("gamma", 5)];
    assert_eq!(display_commas(&cells, 80, false), "alpha, beta, gamma\n");
    assert_eq!(display_commas(&cells, 12, false), "alpha, beta,\ngamma\n");
    assert_eq!(display_commas(&cells, 0, false), "alpha, beta, gamma\n");
    assert_eq!(display_commas(&vec![], 80, false), "");
    assert_eq!(display_one_line_grid(&cells), "alpha  beta  gamma\n");
    assert_eq!(display_one_per_line(&cells, false), "alpha\nbeta\ngamma\n");
    assert!(any_quoted(&vec!["a".to_string(), "'b c'".to_string()]));
    assert!(!any_quoted(&vec!["a".to_string()]));
    assert_eq!(grid_cell_text("a", true), " a");
    assert_eq!(grid_cell_text("'b c'", true), "'b c'");
}

#[test]
fn orders() {
    assert_eq!(order_by_key_desc(&[10, 30, 20, 30]), vec![1, 3, 2, 0]);
    let given = vec![2, 0, 1];
    assert_eq!(sort_entries(LsSort::Name, &[0, 0, 0], &given, false, false, &[false, false, false]), vec![2, 0, 1]);
    assert_eq!(sort_entries(LsSort::Unsorted, &[0, 0, 0], &given, true, true, &[true, false, false]), vec![2, 1, 0]);
    assert_eq!(sort_entries(LsSort::Size, &[5, 9, 1], &given, false, true, &[false, false, true]), vec![2, 1, 0]);
    assert_eq!(directories_first(&vec![0, 1, 2, 3], &[false, true, false, true]), vec![1, 3, 0, 2]);
}

fn indices() -> LsIndices {
    LsIndices {
        format: 0,
        long: 0,
        across: 0,
        commas: 0,
        columns: 0,
        one_line: 0,
        no_owner: 0,
        no_group: 0,
        numeric: 0,
        full_time: 0,
        sort: 0,
        sort_time: 0,
        sort_size: 0,
        sort_none: 0,
        sort_version: 0,
        sort_extension: 0,
        all: 0,
        almost_all: 0,
        f: 0,
        color: 0,
        hyperlink: 0,
        alloc_size: 0,
        zero: 0,
        hide_control: 0,
        show_control: 0,
        quoting_style: 0,
        quote_c: 0,
        escape: 0,
        literal: 0,
    }
}

fn args() -> LsArgs {
    LsArgs {
        indices: indices(),
        format: None,
        long: false,
        across: false,
        commas: false,
        columns: false,
        sort: None,
        sort_time: false,
        sort_size: false,
        sort_none: false,
        sort_version: false,
        sort_extension: false,
        time: None,
        time_access: false,
        time_change: false,
        all: false,
        almost_all: false,
        color: None,
        color_given: false,
        compatible_term: true,
        hyperlink: "never".to_string(),
        alloc_size: false,
        block_size: None,
        si: false,
        human: false,
        kb: false,
        env_ls_block_size: None,
        env_block_size: None,
        env_blocksize: None,
        posixly_correct: false,
        parsed_block_size: None,
        author: false,
        no_group: false,
        long_no_group: false,
        long_no_owner: false,
        numeric: false,
        width: None,
        terminal_width: None,
        columns_env: None,
        hide_control: false,
        show_control: false,
        is_tty: false,
        quoting_style: None,
        literal: false,
        escape: false,
        quote_c: false,
        dired: false,
        quoting_env: None,
        progname: "ls".to_string(),
        indicator_style: None,
        classify: None,
        slash: false,
        file_type: false,
        time_style: None,
        full_time: false,
        full_time_last: false,
        posix_locale: true,
        ignore_backups: false,
        ignore: vec![],
        hide: vec![],
        dereference_all: false,
        dereference_args: false,
        dereference_dir_args: false,
        directory: false,
        recursive: false,
        reverse: false,
        inode: false,
        group_directories_first: false,
        zero: false,
        context: false,
        selinux_supported: false,
    }
}

#[test]
fn configuration_from_defaults() {
    let (cfg, warnings) = LsConfig::from(args());
    let cfg = cfg.unwrap();
    assert!(warnings.is_empty());
    assert_eq!(cfg.format, LsFormat::OneLine);
    assert_eq!(cfg.sort, LsSort::Name);
    assert_eq!(cfg.files, LsFiles::LsNormal);
    assert_eq!(cfg.width, 80);
    assert_eq!(cfg.block_size, 1024);
    assert_eq!(cfg.size_format, LsSizeFormat::Bytes);
}

#[test]
fn configuration_errors_and_warnings() {
    let mut a = args();
    a.width = Some("wide".to_string());
    let (cfg, _) = LsConfig::from(a);
    assert_eq!(cfg.unwrap_err().message(), "invalid line width: 'wide'");
    let mut a = args();
    a.columns_env = Some("abc".to_string());
    let (cfg, warnings) = LsConfig::from(a);
    assert!(cfg.is_ok());
    assert_eq!(warnings, vec!["ignoring invalid width in environment variable COLUMNS: 'abc'".to_string()]);
    let mut a = args();
    a.long = true;
    a.dired = true;
    a.zero = true;
    let (cfg, _) = LsConfig::from(a);
    assert_eq!(cfg.unwrap_err().message(), "--dired and --zero are incompatible");
}

#[test]
fn colour_terminals_are_recognised_by_pattern() {
    let pats: Vec<String> = vec!["xterm*".to_string(), "linux".to_string()];
    assert!(is_color_compatible_term(Some("xterm-256color"), None, &pats));
    assert!(is_color_compatible_term(Some("linux"), None, &pats));
    assert!(!is_color_compatible_term(Some("dumb"), None, &pats));
    assert!(!is_color_compatible_term(Some("linu"), None, &pats));
    // Both set and empty: no colours; unset: colours allowed.
    assert!(!is_color_compatible_term(Some(""), Some(""), &pats));
    assert!(is_color_compatible_term(Some(""), None, &pats));
    assert!(is_color_compatible_term(None, None, &pats));
}

#[test]
fn device_numbers_split_as_glibc_packs_them() {
    // makedev(8, 1) and makedev(259, 65536).
    match device_field((8 << 8) | 1) {
        SizeField::Device(a, b) => {
            assert_eq!(a, "8");
            assert_eq!(b, "1");
        }
        SizeField::Size(_) => panic!("a device has major and minor numbers"),
    }
    let dev: u64 = ((259u64 & 0xfff) << 8) | ((65536u64 & 0xff) | ((65536u64 & !0xff) << 12));
    match device_field(dev) {
        SizeField::Device(a, b) => {
            assert_eq!(a, "259");
            assert_eq!(b, "65536");
        }
        SizeField::Size(_) => panic!("a device has major and minor numbers"),
    }
}

#[test]
fn recent_dates_are_those_of_the_last_half_year() {
    let half: i128 = 15_778_476_000_000_000;
    let now: i128 = 1_700_000_000_000_000_000;
    assert!(is_recent(now - 1, now));
    assert!(is_recent(now - half + 1, now));
    assert!(!is_recent(now - half, now));
    assert!(!is_recent(now, now));
    assert!(!is_recent(now + 5, now));
    assert!(is_recent(i128::MIN, i128::MIN + 1));
}

#[test]
fn date_formats_follow_the_time_style() {
    assert_eq!(date_format(&LsTimeStyle::LsLocale, true), "%b %e %H:%M");
    assert_eq!(date_format(&LsTimeStyle::LsLocale, false), "%b %e  %Y");
    assert_eq!(date_format(&LsTimeStyle::LsIso, true), "%m-%d %H:%M");
    assert_eq!(date_format(&LsTimeStyle::LsIso, false), "%Y-%m-%d ");
    assert_eq!(date_format(&LsTimeStyle::LsLongIso, true), "%Y-%m-%d %H:%M");
    assert_eq!(date_format(&LsTimeStyle::LsFullIso, false), "%Y-%m-%d %H:%M:%S.%f %z");
    assert_eq!(date_format(&LsTimeStyle::LsFormat("%s".to_string()), false), "%s");
}

#[test]
fn block_sizes_read_with_their_units() {
    assert_eq!(parse_size("4096"), Some(4096));
    assert_eq!(parse_size("1K"), Some(1024));
    assert_eq!(parse_size("k"), Some(1024));
    assert_eq!(parse_size("2M"), Some(2 * 1024 * 1024));
    assert_eq!(parse_size("1MB"), Some(1_000_000));
    assert_eq!(parse_size("1GiB"), Some(1 << 30));
    assert_eq!(parse_size("16E"), None);
    assert_eq!(parse_size(""), None);
    assert_eq!(parse_size("12Q"), None);
    assert_eq!(parse_size("1KiBx"), None);
}

#[test]
fn names_are_quoted_as_the_style_asks() {
    let literal = QuotingStyle::Literal { show_control: false };
    assert_eq!(escape_name("a\tb", literal), "a?b");
    assert_eq!(escape_name("a\tb", QuotingStyle::Literal { show_control: true }), "a\tb");
    let shell = QuotingStyle::Shell { escape: false, always_quote: false, show_control: false };
    assert_eq!(escape_name("plain.txt", shell), "plain.txt");
    assert_eq!(escape_name("two words", shell), "'two words'");
    assert_eq!(escape_name("it's", shell), "'it'\\''s'");
    assert_eq!(escape_name("", shell), "''");
    let always = QuotingStyle::Shell { escape: false, always_quote: true, show_control: false };
    assert_eq!(escape_name("x", always), "'x'");
    let escape = QuotingStyle::Shell { escape: true, always_quote: false, show_control: false };
    assert_eq!(escape_name("a\nb", escape), "'a'$'\\012''b'");
    let c = QuotingStyle::C { double_quotes: true };
    assert_eq!(escape_name("say \"hi\"\n", c), "\"say \\\"hi\\\"\\n\"");
    let esc = QuotingStyle::C { double_quotes: false };
    assert_eq!(escape_name("a b\\", esc), "a\\ b\\\\");
}

#[test]
fn sorting_a_listing_keeps_every_entry_once() {
    let keys: Vec<i128> = vec![5, 1, 5, 9, 0];
    let is_dir = [false, true, true, false, true];
    let given: Vec<usize> = vec![4, 2, 0, 1, 3];
    for sort in [LsSort::Time, LsSort::Size, LsSort::Unsorted, LsSort::Name, LsSort::Width] {
        for reverse in [false, true] {
            for dirs_first in [false, true] {
                let mut r = sort_entries(sort, &keys, &given, reverse, dirs_first, &is_dir);
                r.sort();
                assert_eq!(r, vec![0, 1, 2, 3, 4]);
            }
        }
    }
}

#[test]
fn time_and_size_sorts_keep_equal_keys_in_read_order() {
    let given = vec![0, 1, 2, 3];
    let no_dirs = [false, false, false, false];
    assert_eq!(sort_entries(LsSort::Time, &[5, 7, 5, 7], &given, false, false, &no_dirs), vec![1, 3, 0, 2]);
    assert_eq!(sort_entries(LsSort::Size, &[5, 7, 5, 7], &given, false, false, &no_dirs), vec![1, 3, 0, 2]);
    assert_eq!(sort_entries(LsSort::Time, &[5, 7, 5, 7], &given, true, false, &no_dirs), vec![2, 0, 3, 1]);
}

#[test]
fn ls_error_messages_and_codes() {
    assert_eq!(LsError::LsInvalidLineWidth("abc".into()).message(), "invalid line width: 'abc'");
    assert_eq!(LsError::LsAlreadyListedError("/a".into()).message(), "/a: not listing already-listed directory");
    assert_eq!(LsError::LsAlreadyListedError("/a".into()).code(), 2);
    let not_found = LsError::LsIOErrorContext(IoFailure::NotFound, 2, "x".into(), false, String::new(), false);
    assert_eq!(not_found.message(), "cannot access 'x': No such file or directory");
    assert_eq!(not_found.code(), 1);
    let not_permitted = LsError::LsIOErrorContext(IoFailure::PermissionDenied, 1, "x".into(), false, String::new(), true);
    assert_eq!(not_permitted.message(), "cannot access 'x': Operation not permitted");
    assert_eq!(not_permitted.code(), 2);
    let dir = LsError::LsIOErrorContext(IoFailure::PermissionDenied, 13, "d".into(), true, String::new(), false);
    assert_eq!(dir.message(), "cannot open directory 'd': Permission denied");
    let file = LsError::LsIOErrorContext(IoFailure::PermissionDenied, 13, "f".into(), false, String::new(), false);
    assert_eq!(file.message(), "cannot open file 'f': Permission denied");
    let bad = LsError::LsIOErrorContext(IoFailure::Other, 9, "d".into(), true, String::new(), false);
    assert_eq!(bad.message(), "cannot open directory 'd': Bad file descriptor");
    let other = LsError::LsIOErrorContext(IoFailure::Other, 5, "a\"b".into(), false, "Os { code: 5 }".into(), false);
    assert_eq!(other.message(), "unknown io error: '\"a\\\"b\"', 'Os { code: 5 }'");
}

#[test]
fn already_listed_finds_a_directory_on_the_way_down() {
    let ancestors = vec![(1u64, 10u64), (1, 20)];
    assert!(already_listed(&ancestors, (1, 20)));
    assert!(!already_listed(&ancestors, (2, 20)));
    assert!(!already_listed(&[], (1, 10)));
}

#[test]
fn grid_lays_names_out_within_the_width() {
    let cells = vec![cell("a", 1), cell("bb", 2), cell("c", 1)];
    assert_eq!(grid_text(&cells, 80, false, false), "a  bb  c\n");
    assert_eq!(grid_text(&cells, 80, true, false), "a  bb  c\n");
    // Too narrow for any grid: one name per line.
    assert_eq!(grid_text(&cells, 3, false, false), "a\nbb\nc\n");
    // Down the columns, then across the rows.
    let four = vec![cell("aaaa", 4), cell("b", 1), cell("cc", 2), cell("d", 1)];
    assert_eq!(grid_text(&four, 10, false, false), "aaaa  cc\nb     d\n");
    assert_eq!(grid_text(&four, 10, true, false), "aaaa  b\ncc    d\n");
    // A width of zero puts the names on one line.
    assert_eq!(grid_text(&cells, 0, false, false), "a  bb  c\n");
    // Unquoted names move one column right when some name is quoted.
    let quoted = vec![cell("'x y'", 5), cell("z", 1)];
    assert_eq!(grid_text(&quoted, 80, false, true), "'x y'   z\n");
}

#[test]
fn version_order_of_a_listing() {
    let names: Vec<String> = ["b10", "b9", ".hidden", "a", "b9", "a~"].iter().map(|s| s.to_string()).collect();
    // `a~` before `a`, dot names first, equal names in the order read.
    assert_eq!(order_by_version(&names), vec![2, 5, 3, 1, 4, 0]);
    assert_eq!(order_by_version(&[]), Vec::<usize>::new());
}

#[test]
fn extension_order_of_a_listing() {
    let names: Vec<Option<String>> = vec![
        Some("b.txt".to_string()),
        Some("a.rs".to_string()),
        Some("README".to_string()),
        Some(".bashrc".to_string()),
        None,
        Some("a.txt".to_string()),
        Some("c.tar.gz".to_string()),
    ];
    // No name first, then no extension (by stem), then by extension and stem.
    assert_eq!(order_by_extension(&names), vec![4, 3, 2, 6, 1, 5, 0]);
}

#[test]
fn recursion_enters_each_directory_once_on_the_way_down() {
    let mut ancestors: Vec<(u64, u64)> = vec![(1, 2)];
    assert_eq!(enter_step(&mut ancestors, (1, 3)), EnterAction::Enter);
    assert_eq!(ancestors, vec![(1, 2), (1, 3)]);
    assert_eq!(enter_step(&mut ancestors, (1, 2)), EnterAction::AlreadyListed);
    assert_eq!(ancestors, vec![(1, 2), (1, 3)]);
    leave_step(&mut ancestors);
    assert_eq!(ancestors, vec![(1, 2)]);
}

#[test]
fn width_order_of_a_listing() {
    // Names "ccc", "a", "bb", "b": shortest first, then by name.
    let lens = vec![3, 1, 2, 1];
    let name_rank = vec![3, 0, 2, 1];
    assert_eq!(order_by_width(lens, name_rank), vec![1, 3, 2, 0]);
}
