use syskits::fold::{fold_buffer, handle_obsolete, CountMode};

fn s(v: &[&str]) -> Vec<String> {
    v.iter().map(|x| x.to_string()).collect()
}

fn mode_of(bytes: bool, characters: bool) -> CountMode {
    if characters {
        CountMode::Characters
    } else if bytes {
        CountMode::Bytes
    } else {
        CountMode::Columns
    }
}

fn fold_text(input: &str, bytes: bool, characters: bool, spaces: bool, width: usize) -> String {
    let out = fold_buffer(input.as_bytes(), spaces, width, mode_of(bytes, characters)).unwrap();
    String::from_utf8(out).unwrap()
}

#[test]
fn handle_obsolete_with_obsolete_parameter_removes_and_returns_value() {
    let args = s(&["foo", "-1", "bar"]);
    let (result, obsolete) = handle_obsolete(&args);
    assert_eq!(result, s(&["foo", "bar"]));
    assert_eq!(obsolete, Some("1".to_string()));
}

#[test]
fn handle_obsolete_with_multiple_obsolete_parameters_removes_first_and_returns_value() {
    let args = s(&["foo", "-1", "-2", "bar"]);
    let (result, obsolete) = handle_obsolete(&args);
    assert_eq!(result, s(&["foo", "-2", "bar"]));
    assert_eq!(obsolete, Some("1".to_string()));
}

#[test]
fn handle_obsolete_without_obsolete_parameters_returns_original_list_and_none() {
    let args = s(&["foo", "bar"]);
    let (result, obsolete) = handle_obsolete(&args);
    assert_eq!(result, s(&["foo", "bar"]));
    assert_eq!(obsolete, None);
}

#[test]
fn handle_obsolete_with_non_numeric_parameter_returns_original_list_and_none() {
    let args = s(&["foo", "-foo", "bar"]);
    let (result, obsolete) = handle_obsolete(&args);
    assert_eq!(result, s(&["foo", "-foo", "bar"]));
    assert_eq!(obsolete, None);
}

#[test]
fn handle_obsolete_with_empty_args_returns_empty_list_and_none() {
    let args: Vec<String> = vec![];
    let (result, obsolete) = handle_obsolete(&args);
    assert_eq!(result, Vec::<String>::new());
    assert_eq!(obsolete, None);
}

#[test]
fn handle_obsolete_with_only_obsolete_parameters_removes_all_and_returns_first_value() {
    let args = s(&["-1", "-2", "-3"]);
    let (result, obsolete) = handle_obsolete(&args);
    assert_eq!(result, s(&["-2", "-3"]));
    assert_eq!(obsolete, Some("1".to_string()));
}

#[test]
fn handle_obsolete_with_obsolete_parameter_at_beginning_removes_and_returns_value() {
    let args = s(&["-1", "foo", "bar"]);
    let (result, obsolete) = handle_obsolete(&args);
    assert_eq!(result, s(&["foo", "bar"]));
    assert_eq!(obsolete, Some("1".to_string()));
}

#[test]
fn handle_obsolete_with_obsolete_parameter_in_middle_removes_and_returns_value() {
    let args = s(&["foo", "-2", "bar"]);
    let (result, obsolete) = handle_obsolete(&args);
    assert_eq!(result, s(&["foo", "bar"]));
    assert_eq!(obsolete, Some("2".to_string()));
}

#[test]
fn handle_obsolete_with_obsolete_parameter_at_end_removes_and_returns_value() {
    let args = s(&["foo", "bar", "-3"]);
    let (result, obsolete) = handle_obsolete(&args);
    assert_eq!(result, s(&["foo", "bar"]));
    assert_eq!(obsolete, Some("3".to_string()));
}

#[test]
fn handle_obsolete_with_double_dash_parameter_does_not_remove() {
    let args = s(&["foo", "--2", "bar"]);
    let (result, obsolete) = handle_obsolete(&args);
    assert_eq!(result, s(&["foo", "--2", "bar"]));
    assert_eq!(obsolete, None);
}

#[test]
fn handle_obsolete_with_negative_number_parameter_removes_and_returns_value() {
    let args = s(&["foo", "-123", "bar"]);
    let (result, obsolete) = handle_obsolete(&args);
    assert_eq!(result, s(&["foo", "bar"]));
    assert_eq!(obsolete, Some("123".to_string()));
}

#[test]
fn handle_obsolete_with_leading_or_trailing_spaces_does_not_remove() {
    let args = s(&["foo", " -1 ", "bar"]);
    let (result, obsolete) = handle_obsolete(&args);
    assert_eq!(result, s(&["foo", " -1 ", "bar"]));
    assert_eq!(obsolete, None);
}

#[test]
fn test_fold_existing_file_with_width() {
    let content = "This is a test file with content that should be folded at width 20.\nThis is another line that should also be folded properly.";
    let output = fold_text(content, false, false, false, 20);
    assert!(output.contains("This is a test file"));
    assert!(output.contains("with content that sh"));
    assert!(output.contains("ould be folded at wi"));
    assert!(output.contains("dth 20."));
    assert!(output.contains("This is another line"));
    assert!(output.contains(" that should also be"));
    assert!(output.contains(" folded properly."));
}

#[test]
fn test_fold_single_file_bytewise_no_spaces() {
    assert_eq!(fold_text("Hello Rust World!", true, false, false, 5), "Hello\n Rust\n Worl\nd!");
}

#[test]
fn test_fold_single_file_bytewise_spaces() {
    assert_eq!(fold_text("Hello Rust World!", true, false, true, 6), "Hello \nRust \nWorld!");
}

#[test]
fn test_fold_single_file_columnwise_spaces() {
    assert_eq!(fold_text("Hello Rust World!", false, false, true, 6), "Hello \nRust \nWorld!");
}

#[test]
fn test_fold_single_file_columnwise_no_spaces() {
    assert_eq!(fold_text("Hello Rust World!", false, false, false, 6), "Hello \nRust W\norld!");
}

#[test]
fn test_fold_multiple_files() {
    let mut output = fold_text("File1 content.\nNext line in file1.", false, false, false, 10);
    output.push_str(&fold_text("File2 content.\nNext line in file2.", false, false, false, 10));
    assert!(output.contains("File1"));
    assert!(output.contains("File2"));
}

#[test]
fn test_fold_single_file_characterwise_no_spaces() {
    assert_eq!(fold_text("这是测试中文字符串abc", false, true, false, 8), "这是测试中文字符\n串abc");
}

#[test]
fn test_fold_single_file_characterwise_spaces() {
    assert_eq!(fold_text("这是 测试 中文字符 串", false, true, true, 6), "这是 测试 \n中文字符 串");
}

#[test]
fn test_fold_bytewise_utf8_character_boundaries() {
    assert_eq!(fold_text("中文测试abc", true, false, false, 10), "中文测\n试abc");
}

#[test]
fn test_fold_mixed_ascii_utf8_characters() {
    assert_eq!(fold_text("Hello世界123测试", false, true, false, 8), "Hello世界1\n23测试");
}

#[test]
fn test_fold_characterwise_vs_bytewise_difference() {
    assert_eq!(fold_text("测试中文abc", false, true, false, 6), "测试中文ab\nc");
    assert_eq!(fold_text("测试中文abc", true, false, false, 6), "测试\n中文\nabc");
}

#[test]
fn test_fold_characters_vs_bytes_vs_columns() {
    let output_chars = fold_text("中文测试abc", false, true, false, 5);
    let output_bytes = fold_text("中文测试abc", true, false, false, 5);
    let output_cols = fold_text("中文测试abc", false, false, false, 5);
    assert!(!output_chars.is_empty());
    assert!(!output_bytes.is_empty());
    assert!(!output_cols.is_empty());
    assert!(output_chars.contains("中文测试a"));
    assert!(output_bytes.contains("中") && output_bytes.contains("文"));
    assert!(output_bytes.contains("测") && output_bytes.contains("试"));
    assert!(output_cols.contains("中文"));
    assert!(output_cols.contains("测试a"));
}

#[test]
fn test_fold_characters_exact_width() {
    let output = fold_text("12345678901234567890", false, true, false, 10);
    let lines: Vec<&str> = output.lines().collect();
    assert_eq!(lines.len(), 2);
    assert_eq!(lines[0], "1234567890");
    assert_eq!(lines[1], "1234567890");
}

#[test]
fn test_fold_characters_with_emoji() {
    let output = fold_text("😀😃😄😁😆😅", false, true, false, 3);
    let lines: Vec<&str> = output.lines().collect();
    assert_eq!(lines.len(), 2);
    assert_eq!(lines[0].chars().count(), 3);
    assert_eq!(lines[1].chars().count(), 3);
}

#[test]
fn test_fold_byte_mode_newline_handling() {
    assert_eq!(fold_text("a\nb", true, false, false, 1), "a\n\n\nb");
}

#[test]
fn test_fold_byte_mode_ascii_complex() {
    assert_eq!(fold_text("12345678\n123456789", true, false, false, 8), "12345678\n\n1234567\n89");
}

#[test]
fn test_fold_byte_mode_chinese_newline() {
    assert_eq!(fold_text("容\n第二行", true, false, false, 8), "容\n第\n二行");
}

#[test]
fn test_fold_byte_mode_consecutive_newlines() {
    assert_eq!(fold_text("a\n\nb", true, false, false, 1), "a\n\n\n\n\nb");
}

#[test]
fn test_fold_byte_mode_rescan_mechanism() {
    assert_eq!(fold_text("abc\ndef", true, false, false, 2), "ab\nc\n\nde\nf");
}

#[test]
fn test_fold_byte_vs_character_mode_difference() {
    assert_eq!(fold_text("测试abc", true, false, false, 6), "测试\nabc");
    assert_eq!(fold_text("测试abc", false, true, false, 6), "测试abc");
}

#[test]
fn fold_file_empty_input_no_output() {
    assert_eq!(fold_text("", false, false, false, 10), "");
}

#[test]
fn fold_file_single_line_input_no_wrap() {
    assert_eq!(fold_text("This is a single line.", false, false, false, 22), "This is a single line.");
}

#[test]
fn fold_file_multiple_lines_wrap_correctly() {
    assert_eq!(
        fold_text("This is line one.\nThis is line two.\n", false, false, false, 17),
        "This is line one.\nThis is line two.\n"
    );
}

#[test]
fn fold_file_newline_handling_correct_output() {
    assert_eq!(fold_text("Line one\nLine two\n", false, false, false, 10), "Line one\nLine two\n");
}

#[test]
fn fold_file_tab_handling_correct_output() {
    assert_eq!(fold_text("Line\twith\ttabs", false, false, false, 20), "Line\twith\ttabs");
}

#[test]
fn fold_file_backspace_handling_correct_output() {
    assert_eq!(fold_text("Line\\bBackspace", false, false, false, 10), "Line\\bBack\nspace");
}

#[test]
fn fold_file_space_handling_with_spaces() {
    assert_eq!(fold_text("Line with spaces", false, false, true, 10), "Line with \nspaces");
}

#[test]
fn fold_file_line_width_handling_correct_wrap() {
    assert_eq!(
        fold_text("This line is too long and should be wrapped.", false, false, false, 10),
        "This line \nis too lon\ng and shou\nld be wrap\nped."
    );
}

// Own cases.

#[test]
fn fold_columns_tab_moves_to_next_stop() {
    // A tab at column 6 reaches column 8; the next character no longer fits a width of 8.
    assert_eq!(fold_text("abcdef\tx", false, false, false, 8), "abcdef\t\nx");
}

#[test]
fn fold_columns_real_backspace_goes_back_a_column() {
    // "abc", backspace, "d": the position is 3 again after "d", so width 3 holds it.
    assert_eq!(fold_text("abc\u{8}d", false, false, false, 3), "abc\u{8}d");
}

#[test]
fn fold_columns_carriage_return_resets_the_column() {
    assert_eq!(fold_text("abc\rdef", false, false, false, 3), "abc\rdef");
}

#[test]
fn fold_output_only_adds_newlines() {
    // Every input byte is kept, in order; only newlines come in between.
    let input = "the quick brown fox jumps over the lazy dog";
    let output = fold_text(input, false, false, true, 7);
    let kept: String = output.chars().filter(|c| *c != '\n').collect();
    assert_eq!(kept, input);
    for line in output.lines() {
        assert!(line.chars().count() <= 7);
    }
}

#[test]
fn fold_wide_characters_in_columns_mode() {
    // Each of these characters takes two columns.
    assert_eq!(fold_text("中文测试", false, false, false, 4), "中文\n测试");
}

#[test]
fn fold_invalid_utf8_is_read_byte_by_byte() {
    let input: &[u8] = &[0xff, 0xfe, b'a', b'b'];
    let out = fold_buffer(input, false, 2, CountMode::Bytes).unwrap();
    assert_eq!(out, vec![0xff, 0xfe, b'\n', b'a', b'b']);
}

#[test]
fn fold_keeps_a_character_whole_before_a_stray_byte() {
    // The character U+4E2D, then a byte that starts no character.
    let input: &[u8] = &[0xe4, 0xb8, 0xad, 0xff];
    let out = fold_buffer(input, false, 1, CountMode::Characters).unwrap();
    assert_eq!(out, vec![0xe4, 0xb8, 0xad, b'\n', 0xff]);
}

#[test]
fn fold_reads_a_truncated_sequence_byte_by_byte() {
    // A leading byte of a three-byte character with only one continuation byte.
    let input: &[u8] = &[b'a', 0xe4, 0xb8];
    let out = fold_buffer(input, false, 1, CountMode::Characters).unwrap();
    assert_eq!(out, vec![b'a', b'\n', 0xe4, b'\n', 0xb8]);
}

#[test]
fn characters_mode_breaks_after_every_width_characters() {
    // Input newlines count as characters: a newline is put after every third.
    let out = fold_buffer("ab\ncdefg".as_bytes(), false, 3, CountMode::Characters).unwrap();
    assert_eq!(out, b"ab\n\ncde\nfg".to_vec());
    let out = fold_buffer("中文测试字".as_bytes(), false, 2, CountMode::Characters).unwrap();
    assert_eq!(String::from_utf8(out).unwrap(), "中文\n测试\n字");
}

#[test]
fn bytes_mode_lines_fit_the_width() {
    let out = fold_buffer("中文ab\nxyzw".as_bytes(), false, 4, CountMode::Bytes).unwrap();
    for line in out.split(|b| *b == b'\n') {
        assert!(line.len() <= 4);
    }
    assert_eq!(String::from_utf8(out).unwrap(), "中\n文a\nb\nxy\nzw");
}
