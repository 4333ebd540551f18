use syskits::head::{
    file_header, find_nth_line_from_end, head_mode_name_and_count, head_rows_from_bytes, head_semantic_from_results,
    is_stdin_name, read_but_last_n_bytes, read_but_last_n_lines, read_n_bytes, read_n_lines, render_head_open_error,
    render_head_read_error, should_print_header, write_error, FileResult, HeadOptions, Mode, parse_count,
    expand_obsolete, mode_from_counts, take_bytes_from_chunk, take_lines_from_chunk,
};

fn chunks(input: &str) -> Vec<Vec<u8>> {
    // The input as a reader hands it out, in small pieces.
    input.as_bytes().chunks(3).map(|c| c.to_vec()).collect()
}

#[test]
fn test_basic_newline_separator() {
    let input = b"x\ny\nz\n";
    assert_eq!(find_nth_line_from_end(input, 0, b'\n'), 6);
    assert_eq!(find_nth_line_from_end(input, 1, b'\n'), 4);
    assert_eq!(find_nth_line_from_end(input, 2, b'\n'), 2);
    assert_eq!(find_nth_line_from_end(input, 3, b'\n'), 0);
}

#[test]
fn test_custom_separator() {
    let input = b"a;b;c;";
    assert_eq!(find_nth_line_from_end(input, 0, b';'), 6);
    assert_eq!(find_nth_line_from_end(input, 1, b';'), 4);
    assert_eq!(find_nth_line_from_end(input, 2, b';'), 2);
}

#[test]
fn test_empty_input() {
    assert_eq!(find_nth_line_from_end(b"", 0, b'\n'), 0);
    assert_eq!(find_nth_line_from_end(b"", 1, b'\n'), 0);
}

#[test]
fn test_no_separator() {
    assert_eq!(find_nth_line_from_end(b"abc", 0, b'\n'), 3);
    assert_eq!(find_nth_line_from_end(b"abc", 1, b'\n'), 0);
}

#[test]
fn test_only_separators() {
    let input = b"\n\n\n";
    assert_eq!(find_nth_line_from_end(input, 0, b'\n'), 3);
    assert_eq!(find_nth_line_from_end(input, 1, b'\n'), 2);
    assert_eq!(find_nth_line_from_end(input, 2, b'\n'), 1);
    assert_eq!(find_nth_line_from_end(input, 3, b'\n'), 0);
}

#[test]
fn test_unicode_content() {
    let input = "你好\n世界\n再见\n".as_bytes();
    assert_eq!(find_nth_line_from_end(input, 0, b'\n'), 21);
    assert_eq!(find_nth_line_from_end(input, 1, b'\n'), 14);
    assert_eq!(find_nth_line_from_end(input, 2, b'\n'), 7);
}

#[test]
fn test_large_line_count() {
    assert_eq!(find_nth_line_from_end(b"x\ny\nz\n", 1000, b'\n'), 0);
}

#[test]
fn test_without_final_separator() {
    let input = b"a\nb\nc";
    assert_eq!(find_nth_line_from_end(input, 0, b'\n'), 5);
    assert_eq!(find_nth_line_from_end(input, 1, b'\n'), 4);
    assert_eq!(find_nth_line_from_end(input, 2, b'\n'), 2);
}

#[test]
fn test_find_nth_line_from_end() {
    let input = b"x\ny\nz\n";
    assert_eq!(find_nth_line_from_end(input, 0, b'\n'), 6);
    assert_eq!(find_nth_line_from_end(input, 1, b'\n'), 4);
    assert_eq!(find_nth_line_from_end(input, 2, b'\n'), 2);
    assert_eq!(find_nth_line_from_end(input, 3, b'\n'), 0);
    assert_eq!(find_nth_line_from_end(input, 4, b'\n'), 0);
    assert_eq!(find_nth_line_from_end(input, 1000, b'\n'), 0);
}

#[test]
fn test_read_but_last_n_lines_exact() {
    assert_eq!(read_but_last_n_lines(b"line1\nline2\nline3\nline4\n", 2, b'\n'), b"line1\nline2\n");
}

#[test]
fn test_read_but_last_n_lines_more_than_available() {
    assert_eq!(read_but_last_n_lines(b"line1\nline2\n", 5, b'\n'), b"");
}

#[test]
fn test_read_but_last_n_lines_zero() {
    assert_eq!(read_but_last_n_lines(b"line1\nline2\n", 0, b'\n'), b"line1\nline2\n");
}

#[test]
fn test_read_but_last_n_lines_empty_input() {
    assert_eq!(read_but_last_n_lines(b"", 5, b'\n'), b"");
}

#[test]
fn test_read_but_last_n_lines_without_final_newline() {
    assert_eq!(read_but_last_n_lines(b"line1\nline2\nline3", 1, b'\n'), b"line1\nline2\n");
}

#[test]
fn test_read_but_last_n_lines_with_custom_separator() {
    assert_eq!(read_but_last_n_lines(b"line1;line2;line3;line4", 2, b';'), b"line1;line2;");
}

#[test]
fn test_read_but_last_n_lines_unicode() {
    assert_eq!(read_but_last_n_lines("你好\n世界\n再见\n".as_bytes(), 1, b'\n'), "你好\n世界\n".as_bytes());
}

#[test]
fn test_read_but_last_n_lines_exact_size() {
    assert_eq!(read_but_last_n_lines(b"line1\nline2\n", 2, b'\n'), b"");
}

#[test]
fn test_read_but_last_n_bytes_exact() {
    assert_eq!(read_but_last_n_bytes(&chunks("Hello, World!"), 6), b"Hello, ");
}

#[test]
fn test_read_but_last_n_bytes_more_than_available() {
    assert_eq!(read_but_last_n_bytes(&chunks("Hello"), 10), b"");
}

#[test]
fn test_read_but_last_n_bytes_zero() {
    assert_eq!(read_but_last_n_bytes(&chunks("Hello"), 0), b"Hello");
}

#[test]
fn test_read_but_last_n_bytes_empty_input() {
    assert_eq!(read_but_last_n_bytes(&chunks(""), 5), b"");
}

#[test]
fn test_read_but_last_n_bytes_with_newlines() {
    assert_eq!(read_but_last_n_bytes(&chunks("line1\nline2\nline3"), 5), b"line1\nline2\n");
}

#[test]
fn test_read_but_last_n_bytes_unicode() {
    let buffer = read_but_last_n_bytes(&chunks("你好世界"), 3);
    assert_eq!(buffer, "你好世".as_bytes());
    assert_eq!(buffer.len(), 9);
}

#[test]
fn test_read_but_last_n_bytes_exact_size() {
    assert_eq!(read_but_last_n_bytes(&chunks("Hello"), 5), b"");
}

#[test]
fn test_read_n_lines_exact() {
    assert_eq!(read_n_lines(&chunks("line1\nline2\nline3\n"), 2, b'\n'), b"line1\nline2\n");
}

#[test]
fn test_read_n_lines_more_than_available() {
    assert_eq!(read_n_lines(&chunks("line1\nline2\n"), 5, b'\n'), b"line1\nline2\n");
}

#[test]
fn test_read_n_lines_zero() {
    assert_eq!(read_n_lines(&chunks("line1\nline2\n"), 0, b'\n'), b"");
}

#[test]
fn test_read_n_lines_empty_input() {
    assert_eq!(read_n_lines(&chunks(""), 5, b'\n'), b"");
}

#[test]
fn test_read_n_lines_without_final_newline() {
    assert_eq!(read_n_lines(&chunks("line1\nline2\nline3"), 2, b'\n'), b"line1\nline2\n");
}

#[test]
fn test_read_n_lines_with_custom_separator() {
    assert_eq!(read_n_lines(&chunks("line1;line2;line3"), 2, b';'), b"line1;line2;");
}

#[test]
fn test_read_n_lines_unicode() {
    assert_eq!(read_n_lines(&chunks("你好\n世界\n"), 1, b'\n'), "你好\n".as_bytes());
}

#[test]
fn test_read_n_bytes_exact() {
    assert_eq!(read_n_bytes(b"Hello, World!", 5), b"Hello");
}

#[test]
fn test_read_n_bytes_more_than_available() {
    assert_eq!(read_n_bytes(b"Hello", 10), b"Hello");
}

#[test]
fn test_read_n_bytes_zero() {
    assert_eq!(read_n_bytes(b"Hello", 0), b"");
}

#[test]
fn test_read_n_bytes_empty_input() {
    assert_eq!(read_n_bytes(b"", 5), b"");
}

#[test]
fn test_read_n_bytes_with_newlines() {
    assert_eq!(read_n_bytes(b"line1\nline2\nline3", 7), b"line1\nl");
}

#[test]
fn test_read_n_bytes_unicode() {
    assert_eq!(read_n_bytes("你好，世界".as_bytes(), 6), "你好".as_bytes());
}

#[test]
fn read_early_exit() {
    assert_eq!(read_n_bytes(b"", 0), b"");
    assert_eq!(read_n_lines(&[], 0, b'\n'), b"");
}

// Own cases.

#[test]
fn backward_and_forward_cuts_agree() {
    // `find_nth_line_from_end` and `read_but_last_n_lines` give the same cut.
    for input in [&b"x\ny\nz\n"[..], b"a\nb\nc", b"", b"\n\n\n", b"abc"] {
        for n in 0..5u64 {
            let cut = find_nth_line_from_end(input, n, b'\n') as usize;
            assert_eq!(read_but_last_n_lines(input, n, b'\n'), input[..cut].to_vec());
        }
    }
}

#[test]
fn first_lines_hold_k_separators() {
    let out = read_n_lines(&chunks("a\nb\nc\nd\n"), 3, b'\n');
    assert_eq!(out.iter().filter(|b| **b == b'\n').count(), 3);
    assert_eq!(out.last(), Some(&b'\n'));
}

#[test]
fn read_n_lines_with_nul_separator() {
    assert_eq!(read_n_lines(&chunks("a\0b\0c"), 2, 0), b"a\0b\0");
}

#[test]
fn read_but_last_n_bytes_count_too_large_for_memory() {
    if (usize::MAX as u128) < (u64::MAX as u128) {
        assert_eq!(read_but_last_n_bytes(&chunks("abc"), u64::MAX), b"");
    }
}

#[test]
fn headers_and_messages() {
    assert_eq!(file_header(true, "a.txt"), "==> a.txt <==\n");
    assert_eq!(file_header(false, "b.txt"), "\n==> b.txt <==\n");
    assert_eq!(write_error("Broken pipe"), "error writing 'standard output': Broken pipe");
    assert_eq!(
        render_head_open_error("missing", "No such file or directory"),
        "head: cannot open 'missing' for reading: No such file or directory\n"
    );
    assert_eq!(render_head_read_error("dir"), "head: error reading dir: Input/output error\n");
    assert!(is_stdin_name("-"));
    assert!(!is_stdin_name("--"));
}

#[test]
fn mode_names() {
    assert_eq!(Mode::default(), Mode::FirstLines(10));
    assert_eq!(head_mode_name_and_count(&Mode::AllButLastBytes(7)), ("all_but_last_bytes", 7));
    assert_eq!(head_mode_name_and_count(&Mode::FirstLines(3)), ("first_lines", 3));
}

fn options(files: &[&str], quiet: bool, verbose: bool) -> HeadOptions {
    HeadOptions {
        quiet,
        verbose,
        zero_terminated: false,
        presume_input_pipe: false,
        mode: Mode::FirstLines(10),
        files: files.iter().map(|f| f.to_string()).collect(),
    }
}

#[test]
fn header_rules() {
    assert!(!should_print_header(&options(&["a"], false, false)));
    assert!(should_print_header(&options(&["a", "b"], false, false)));
    assert!(!should_print_header(&options(&["a", "b"], true, false)));
    assert!(should_print_header(&options(&["a"], false, true)));
}

#[test]
fn rows_of_an_output() {
    let rows = head_rows_from_bytes(b"one\ntwo\nthree", "f", b'\n');
    assert_eq!(rows.len(), 3);
    assert_eq!(rows[0].line, "one");
    assert_eq!(rows[0].row_index, 1);
    assert!(rows[1].terminated);
    assert_eq!(rows[2].line, "three");
    assert_eq!(rows[2].byte_length, 5);
    assert!(!rows[2].terminated);
}

#[test]
fn semantic_collects_rows_of_each_input() {
    let opts = options(&["a", "b"], false, false);
    let results = vec![
        FileResult::Read(b"1\n2\n".to_vec(), None),
        FileResult::Read(b"x\n".to_vec(), None),
    ];
    let sem = head_semantic_from_results(&opts, &results);
    assert_eq!(sem.classic_text, "==> a <==\n1\n2\n\n==> b <==\nx\n");
    assert_eq!(sem.stderr_text, "");
    assert_eq!(sem.exit_code, 0);
    assert_eq!(sem.rows.len(), 3);
}

#[test]
fn semantic_reports_an_input_that_failed() {
    let opts = options(&["missing"], false, false);
    let results = vec![FileResult::OpenFailed("No such file or directory".to_string())];
    let sem = head_semantic_from_results(&opts, &results);
    assert_eq!(sem.classic_text, "");
    assert_eq!(sem.stderr_text, "head: cannot open 'missing' for reading: No such file or directory\n");
    assert_eq!(sem.exit_code, 1);
    assert!(sem.rows.is_empty());
}

#[test]
fn counts_read_with_their_all_but_last_sign() {
    assert_eq!(parse_count("10"), Some((10, false)));
    assert_eq!(parse_count("-3"), Some((3, true)));
    assert_eq!(parse_count("0"), Some((0, false)));
    assert_eq!(parse_count(""), None);
    assert_eq!(parse_count("-"), None);
    assert_eq!(parse_count("+5"), None);
    assert_eq!(parse_count("-+5"), None);
    assert_eq!(parse_count("1x"), None);
    assert_eq!(parse_count("18446744073709551615"), Some((u64::MAX, false)));
    assert_eq!(parse_count("18446744073709551616"), None);
}

fn arg_outputs(src: &str) -> Result<String, ()> {
    let args: Vec<String> = src.split_whitespace().map(|s| s.to_string()).collect();
    match expand_obsolete(&args) {
        Ok(v) => Ok(v.join(" ")),
        Err(_) => Err(()),
    }
}

#[test]
fn test_arg_iterate() {
    // test that normal args remain unchanged
    assert_eq!(arg_outputs("head -n -5 -zv"), Ok("head -n -5 -zv".to_owned()));
    // tests that nonsensical args are unchanged
    assert_eq!(
        arg_outputs("head -to_be_or_not_to_be,..."),
        Ok("head -to_be_or_not_to_be,...".to_owned())
    );
    //test that the obsolete syntax is unrolled
    assert_eq!(arg_outputs("head -123qvqvqzc"), Ok("head -q -z -c 123".to_owned()));
    //test that bad obsoletes are an error
    assert!(arg_outputs("head -123FooBar").is_err());
    //test overflow
    assert!(arg_outputs("head -100000000000000000000000000000000000000000").is_err());
    //test that empty args remain unchanged
    assert_eq!(arg_outputs("head"), Ok("head".to_owned()));
}

#[test]
fn old_count_form_becomes_dash_n() {
    let args: Vec<String> = ["head", "-5", "a.txt"].iter().map(|s| s.to_string()).collect();
    assert_eq!(expand_obsolete(&args), Ok(vec!["head".to_string(), "-n".to_string(), "5".to_string(), "a.txt".to_string()]));
    let args: Vec<String> = ["head", "-v", "-5"].iter().map(|s| s.to_string()).collect();
    assert_eq!(expand_obsolete(&args), Ok(args.clone()));
    let args: Vec<String> = ["head"].iter().map(|s| s.to_string()).collect();
    assert_eq!(expand_obsolete(&args), Ok(args.clone()));
}

#[test]
fn old_count_form_units_and_switches() {
    assert_eq!(arg_outputs("head -2k f"), Ok("head -c 2048 f".to_owned()));
    assert_eq!(arg_outputs("head -3b"), Ok("head -c 1536".to_owned()));
    assert_eq!(arg_outputs("head -1m"), Ok("head -c 1048576".to_owned()));
    assert_eq!(arg_outputs("head -007v"), Ok("head -v -n 7".to_owned()));
    assert_eq!(arg_outputs("head -4vq"), Ok("head -q -n 4".to_owned()));
    assert_eq!(arg_outputs("head -4z"), Ok("head -z -n 4".to_owned()));
}

#[test]
fn old_count_form_errors_carry_their_messages() {
    let args: Vec<String> = ["head", "-5x"].iter().map(|s| s.to_string()).collect();
    assert_eq!(expand_obsolete(&args), Err("bad argument format: '-5x'".to_string()));
    let args: Vec<String> = ["head", "-5c3"].iter().map(|s| s.to_string()).collect();
    assert_eq!(expand_obsolete(&args), Err("bad argument format: '-5c3'".to_string()));
    let args: Vec<String> = ["head", "-99999999999999999999"].iter().map(|s| s.to_string()).collect();
    assert_eq!(
        expand_obsolete(&args),
        Err("invalid argument: '-99999999999999999999' Value too large for defined datatype".to_string())
    );
    let args: Vec<String> = ["head", "-18014398509481984m"].iter().map(|s| s.to_string()).collect();
    assert_eq!(
        expand_obsolete(&args),
        Err("invalid argument: '-18014398509481984m' Value too large for defined datatype".to_string())
    );
}

/// Writes the first `n` lines (or bytes) of the pieces as they come, and
/// says how many pieces were looked at.
fn stream(pieces: &[Vec<u8>], n: u64, by_lines: bool) -> (Vec<u8>, usize) {
    let mut out = Vec::new();
    let mut left = n;
    let mut looked = 0;
    for p in pieces {
        if left == 0 {
            break;
        }
        looked += 1;
        let (take, rest) = if by_lines { take_lines_from_chunk(p, left, b'\n') } else { take_bytes_from_chunk(p.len(), left) };
        out.extend_from_slice(&p[..take]);
        left = rest;
    }
    (out, looked)
}

#[test]
fn first_lines_read_piece_by_piece_agree_with_the_whole() {
    let input = "a\nbb\nccc\nd\n";
    let pieces = chunks(input);
    for n in 0..6u64 {
        assert_eq!(stream(&pieces, n, true).0, read_n_lines(&pieces, n, b'\n'));
        assert_eq!(stream(&pieces, n, false).0, read_n_bytes(input.as_bytes(), n));
    }
    // Reading stops once the lines are written: the rest is never looked at.
    assert_eq!(stream(&pieces, 1, true), (b"a\n".to_vec(), 1));
    assert_eq!(take_lines_from_chunk(b"x\ny\nz", 5, b'\n'), (5, 3));
    assert_eq!(take_lines_from_chunk(b"x\ny\nz", 2, b'\n'), (4, 0));
    assert_eq!(take_bytes_from_chunk(10, 4), (4, 0));
    assert_eq!(take_bytes_from_chunk(3, 4), (3, 1));
}

#[test]
fn mode_from_rejects_overflow_counts() {
    let byte_err = mode_from_counts(Some("18446744073709551616"), None).unwrap_err();
    let line_err = mode_from_counts(None, Some("18446744073709551616")).unwrap_err();
    assert!(byte_err.starts_with("invalid number of bytes:"));
    assert!(byte_err.contains("Value too large"));
    assert!(line_err.starts_with("invalid number of lines:"));
    assert!(line_err.contains("Value too large"));
}

#[test]
fn mode_from_counts_reads_each_form() {
    assert_eq!(mode_from_counts(None, None), Ok(Mode::FirstLines(10)));
    assert_eq!(mode_from_counts(Some("5"), Some("7")), Ok(Mode::FirstBytes(5)));
    assert_eq!(mode_from_counts(Some("-5"), None), Ok(Mode::AllButLastBytes(5)));
    assert_eq!(mode_from_counts(None, Some("7")), Ok(Mode::FirstLines(7)));
    assert_eq!(mode_from_counts(None, Some("-7")), Ok(Mode::AllButLastLines(7)));
    assert_eq!(mode_from_counts(None, Some("x")), Err("invalid number of lines: 'x'".to_string()));
    assert_eq!(
        mode_from_counts(Some("-99999999999999999999"), None),
        Err("invalid number of bytes: '-99999999999999999999': Value too large for defined data type".to_string())
    );
}
