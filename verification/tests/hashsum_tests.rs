use syskits::hashsum::parse_bit_num;
use syskits::text::IntError;
use syskits::hashsum::{
    compute_digest,
    create_algorithm_from_flags, create_blake2b, create_sha3, detect_algo, digest_bytes_hex, digest_hex_len,
    escape_filename, hash_line, parse_hash_line, summary_warnings, unescape_filename, verify_report, AlgoError,
    AlgoOptions, Algorithm, HashsumFlags, check_step, tally_failed, CheckAction, CheckEvent, CheckTally,
};

fn flags(tag: bool, no_names: bool, zero: bool, binary: bool) -> HashsumFlags {
    HashsumFlags {
        algoname: "MD5",
        output_bits: 128,
        is_binary: binary,
        is_check: false,
        is_tag: tag,
        is_nonames: no_names,
        is_status: false,
        is_quiet: false,
        is_strict: false,
        is_warn: false,
        is_zero: zero,
        is_ignore_missing: false,
    }
}

fn no_algo() -> AlgoOptions {
    AlgoOptions {
        md5: false,
        sha1: false,
        sha224: false,
        sha256: false,
        sha384: false,
        sha512: false,
        b2sum: false,
        b3sum: false,
        sha3: false,
        sha3_224: false,
        sha3_256: false,
        sha3_384: false,
        sha3_512: false,
        shake128: false,
        shake256: false,
        length: None,
        bits: None,
    }
}

const SUM: &str = "d41d8cd98f00b204e9800998ecf8427e";

#[test]
fn test_compute_hash_bsd_style() {
    let line = hash_line(&flags(true, false, false, false), "file.txt", SUM);
    assert_eq!(line, format!("MD5 (file.txt) = {SUM}\n"));
}

#[test]
fn test_compute_hash_no_names() {
    let line = hash_line(&flags(false, true, false, false), "file.txt", SUM);
    assert_eq!(line, format!("{SUM}\n"));
}

#[test]
fn test_compute_hash_zero_terminator() {
    let line = hash_line(&flags(false, false, true, false), "a\nb", SUM);
    assert_eq!(line, format!("{SUM}  a\nb\0"));
}

#[test]
fn test_unescape_filename_no_escape_chars() {
    let (unescaped, prefix) = unescape_filename("normal_filename.txt");
    assert_eq!(unescaped, "normal_filename.txt");
    assert_eq!(prefix, "");
}

#[test]
fn test_unescape_filename_with_backslash() {
    let (unescaped, prefix) = unescape_filename("file\\\\with\\\\backslashes.txt");
    assert_eq!(unescaped, "file\\with\\backslashes.txt");
    assert_eq!(prefix, "\\");
}

#[test]
fn test_unescape_filename_with_newline() {
    let (unescaped, prefix) = unescape_filename("file\\nwith\\nnewlines.txt");
    assert_eq!(unescaped, "file\nwith\nnewlines.txt");
    assert_eq!(prefix, "\\");
}

#[test]
fn test_unescape_filename_with_carriage_return() {
    let (unescaped, prefix) = unescape_filename("file\\rwith\\rcarriage-returns.txt");
    assert_eq!(unescaped, "file\rwith\rcarriage-returns.txt");
    assert_eq!(prefix, "\\");
}

#[test]
fn test_unescape_filename_with_mixed_escapes() {
    let (unescaped, prefix) = unescape_filename("file\\\\with\\nmixed\\rescapes.txt");
    assert_eq!(unescaped, "file\\with\nmixed\rescapes.txt");
    assert_eq!(prefix, "\\");
}

#[test]
fn test_unescape_filename_empty_string() {
    let (unescaped, prefix) = unescape_filename("");
    assert_eq!(unescaped, "");
    assert_eq!(prefix, "");
}

#[test]
fn test_escape_filename_no_special_chars() {
    let (escaped, prefix) = escape_filename("normal_filename.txt");
    assert_eq!(escaped, "normal_filename.txt");
    assert_eq!(prefix, "");
}

#[test]
fn test_escape_filename_with_backslash() {
    let (escaped, prefix) = escape_filename("file\\with\\backslashes.txt");
    assert_eq!(escaped, "file\\\\with\\\\backslashes.txt");
    assert_eq!(prefix, "\\");
}

#[test]
fn test_escape_filename_with_newline() {
    let (escaped, prefix) = escape_filename("file\nwith\nnewlines.txt");
    assert_eq!(escaped, "file\\nwith\\nnewlines.txt");
    assert_eq!(prefix, "\\");
}

#[test]
fn test_escape_filename_with_carriage_return() {
    let (escaped, prefix) = escape_filename("file\rwith\rcarriage-returns.txt");
    assert_eq!(escaped, "file\\rwith\\rcarriage-returns.txt");
    assert_eq!(prefix, "\\");
}

#[test]
fn test_escape_filename_with_mixed_special_chars() {
    let (escaped, prefix) = escape_filename("file\\\nwith\rmixed_chars.txt");
    assert_eq!(escaped, "file\\\\\\nwith\\rmixed_chars.txt");
    assert_eq!(prefix, "\\");
}

#[test]
fn test_escape_filename_empty_string() {
    let (escaped, prefix) = escape_filename("");
    assert_eq!(escaped, "");
    assert_eq!(prefix, "");
}

#[test]
fn test_create_check_regexes_fixed_output_bits() {
    // 128 bits of MD5: 32 hexadecimal digits.
    assert_eq!(digest_hex_len(Algorithm::Md5, 128), Some(32));
}

#[test]
fn test_create_check_regexes_variable_output_bits() {
    // SHAKE has no fixed digest length.
    assert_eq!(digest_hex_len(Algorithm::Shake128, 0), None);
}

// Own cases.

#[test]
fn escape_then_unescape_gives_the_name_back() {
    for name in ["plain.txt", "a\nb", "c\rd", "\n\r\n", ""] {
        let (escaped, _) = escape_filename(name);
        let (back, _) = unescape_filename(&escaped);
        assert_eq!(back, name);
    }
}

#[test]
fn escape_then_unescape_differs_for_a_backslash_before_n() {
    let (escaped, _) = escape_filename("x\\ny");
    let (back, _) = unescape_filename(&escaped);
    assert_eq!(back, "x\ny");
}

#[test]
fn hash_line_gnu_style_escapes_the_name() {
    let line = hash_line(&flags(false, false, false, true), "a\nb", SUM);
    assert_eq!(line, format!("\\{SUM} *a\\nb\n"));
}

#[test]
fn hash_line_tag_with_zero_keeps_the_name() {
    let line = hash_line(&flags(true, false, true, false), "a\nb", SUM);
    assert_eq!(line, format!("MD5 (a\nb) = {SUM}\0"));
}

#[test]
fn digest_hex_of_bytes() {
    assert_eq!(digest_bytes_hex(&[0x00, 0xab, 0x7f]), "00ab7f");
}

#[test]
fn sha3_sizes() {
    assert_eq!(create_sha3(Some(256)), Ok((Algorithm::Sha3_256, 256)));
    assert_eq!(create_sha3(Some(100)), Err(AlgoError::InvalidSha3Size));
    assert_eq!(create_sha3(None), Err(AlgoError::Sha3BitsRequired));
}

#[test]
fn blake2b_lengths() {
    assert_eq!(create_blake2b(None), Ok((Algorithm::Blake2b(64), 512)));
    assert_eq!(create_blake2b(Some(256)), Ok((Algorithm::Blake2b(32), 256)));
    assert_eq!(create_blake2b(Some(520)), Err(AlgoError::LengthTooLarge));
    assert_eq!(create_blake2b(Some(12)), Err(AlgoError::LengthNotMultipleOf8));
}

#[test]
fn algorithm_flags() {
    let mut o = no_algo();
    assert_eq!(create_algorithm_from_flags(&o).unwrap_err(), AlgoError::NoAlgorithm);
    o.md5 = true;
    o.sha1 = true;
    assert_eq!(create_algorithm_from_flags(&o).unwrap_err(), AlgoError::MultipleAlgorithms);
    let mut o = no_algo();
    o.shake128 = true;
    assert_eq!(create_algorithm_from_flags(&o).unwrap_err(), AlgoError::Shake128BitsRequired);
}

#[test]
fn detect_algo_from_program_name() {
    let c = detect_algo("sha256sum", &no_algo()).unwrap();
    assert_eq!(c.algorithm, Algorithm::Sha256);
    assert_eq!(c.output_bits, 256);
}

#[test]
fn parse_gnu_and_bsd_lines() {
    let mut rev = None;
    let line = format!("{SUM}  file.txt");
    let r = parse_hash_line(&line, "MD5", Some(32), &mut rev).unwrap();
    assert_eq!(r, ("file.txt".to_string(), SUM.to_string(), false));
    let mut rev = None;
    let line = format!("MD5 (file.txt) = {}", SUM.to_uppercase());
    let r = parse_hash_line(&line, "MD5", Some(32), &mut rev).unwrap();
    assert_eq!(r, ("file.txt".to_string(), SUM.to_string(), true));
    let mut rev = None;
    assert_eq!(parse_hash_line("not a checksum line", "MD5", Some(32), &mut rev), None);
}

#[test]
fn verify_reports() {
    let f = flags(false, false, false, false);
    let ok = verify_report(&f, "md5sum", "file.txt", SUM, Some(SUM));
    assert_eq!(ok.text, "file.txt: OK\n");
    assert!(ok.passed);
    let bad = verify_report(&f, "md5sum", "file.txt", SUM, Some("00"));
    assert_eq!(bad.text, "file.txt: FAILED\n");
    assert!(!bad.passed);
    let missing = verify_report(&f, "md5sum", "file.txt", SUM, None);
    assert_eq!(missing.text, "md5sum: file.txt: No such file or directory\nfile.txt: FAILED open or read\n");
    assert!(missing.open_failed);
}

#[test]
fn summary_counts() {
    let w = summary_warnings(1, 2, 0);
    assert_eq!(w, vec!["1 line is improperly formatted".to_string(), "2 computed checksum did NOT match".to_string()]);
    let w = summary_warnings(3, 0, 2);
    assert_eq!(w, vec!["3 lines are improperly formatted".to_string(), "2 listed files could not be read".to_string()]);
}

#[test]
fn bit_numbers_parse_as_usize_does() {
    assert_eq!(parse_bit_num("256"), Ok(256));
    assert_eq!(parse_bit_num("+512"), Ok(512));
    assert_eq!(parse_bit_num("0"), Ok(0));
    assert_eq!(parse_bit_num(""), Err(IntError::Empty));
    assert_eq!(parse_bit_num("+"), Err(IntError::InvalidDigit));
    assert_eq!(parse_bit_num("-8"), Err(IntError::InvalidDigit));
    assert_eq!(parse_bit_num("12a"), Err(IntError::InvalidDigit));
    assert_eq!(parse_bit_num("99999999999999999999999"), Err(IntError::PosOverflow));
}

#[test]
fn written_checksum_lines_read_back() {
    let sum = "d41d8cd98f00b204e9800998ecf8427e";
    // GNU format, text and binary mode.
    for binary in [false, true] {
        let line = hash_line(&flags(false, false, false, binary), "dir/file.txt", sum);
        let mut state = None;
        let parsed = parse_hash_line(line.trim_end_matches('\n'), "MD5", Some(32), &mut state);
        assert_eq!(parsed, Some(("dir/file.txt".to_string(), sum.to_string(), binary)));
    }
    // BSD format with a name that needs escaping.
    let line = hash_line(&flags(true, false, false, false), "a\nb", sum);
    assert_eq!(line, format!("\\MD5 (a\\nb) = {sum}\n"));
    let mut state = None;
    let parsed = parse_hash_line(line.trim_end_matches('\n'), "MD5", Some(32), &mut state);
    assert_eq!(parsed, Some(("a\\nb".to_string(), sum.to_string(), true)));
    assert_eq!(unescape_filename("a\\nb").0, "a\nb");
}

#[test]
fn algorithm_errors_have_their_messages() {
    assert_eq!(AlgoError::LengthTooLarge.message(), "Invalid length (maximum digest length is 512 bits)");
    assert_eq!(AlgoError::NoAlgorithm.message(), "You must specify hash algorithm!");
    assert_eq!(AlgoError::MultipleAlgorithms.message(), "You cannot combine multiple hash algorithms!");
    assert_eq!(AlgoError::Sha3BitsRequired.message(), "--bits required for SHA3");
}

#[test]
fn digests_of_known_texts() {
    let abc = b"abc";
    assert_eq!(compute_digest(Algorithm::Md5, 128, b""), "d41d8cd98f00b204e9800998ecf8427e");
    assert_eq!(compute_digest(Algorithm::Md5, 128, abc), "900150983cd24fb0d6963f7d28e17f72");
    assert_eq!(compute_digest(Algorithm::Sha1, 160, abc), "a9993e364706816aba3e25717850c26c9cd0d89d");
    assert_eq!(
        compute_digest(Algorithm::Sha224, 224, abc),
        "23097d223405d8228642a477bda255b32aadbce4bda0b3f7e36c9da7"
    );
    assert_eq!(
        compute_digest(Algorithm::Sha256, 256, abc),
        "ba7816bf8f01cfea414140de5dae2223b00361a396177a9cb410ff61f20015ad"
    );
    assert_eq!(
        compute_digest(Algorithm::Sha384, 384, abc),
        "cb00753f45a35e8bb5a03d699ac65007272c32ab0eded1631a8b605a43ff5bed8086072ba1e7cc2358baeca134c825a7"
    );
    assert_eq!(
        compute_digest(Algorithm::Sha512, 512, abc),
        "ddaf35a193617abacc417349ae20413112e6fa4e89a97ea20a9eeee64b55d39a2192992a274fc1a836ba3c23a3feebbd454d4423643ce80e2a9ac94fa54ca49f"
    );
    assert_eq!(
        compute_digest(Algorithm::Sha3_224, 224, abc),
        "e642824c3f8cf24ad09234ee7d3c766fc9a3a5168d0c94ad73b46fdf"
    );
    assert_eq!(
        compute_digest(Algorithm::Sha3_256, 256, abc),
        "3a985da74fe225b2045c172d6bd390bd855f086e3e9d525b46bfe24511431532"
    );
    assert_eq!(
        compute_digest(Algorithm::Blake2b(64), 512, abc),
        "ba80a53f981c4d0d6a2797b69f12f6e94c212f14685ac4b74b12bb6fdbffa2d17d87c5392aab792dc252d5de4533cc9518d38aa8dbf1925ab92386edd4009923"
    );
    assert_eq!(compute_digest(Algorithm::Blake2b(16), 128, abc).len(), 32);
    assert_eq!(
        compute_digest(Algorithm::Blake3, 256, abc),
        "6437b3ac38465133ffb63b75273a8db548c558465d79db03fd359c6cd5bd9d85"
    );
    assert_eq!(
        compute_digest(Algorithm::Shake128, 256, b""),
        "7f9c2ba4e88f827d616045507605853ed73b8093f6efbc88eb1a6eacfa66ef26"
    );
    assert_eq!(
        compute_digest(Algorithm::Shake256, 512, b""),
        "46b9dd2b0ba88d13233b3feb743eeb243fcd52ea62b81b82b50c27646ed5762fd75dc4ddd8c0f200cb05019d67b592f6fc821c49479ab48640292eacb3b7c4be"
    );
    assert_eq!(compute_digest(Algorithm::Shake128, 12, b"").len(), 4);
}

#[test]
fn a_written_checksum_verifies() {
    let data = b"some file contents\n";
    let sum = compute_digest(Algorithm::Md5, 128, data);
    for tag in [false, true] {
        let f = flags(tag, false, false, false);
        let line = hash_line(&f, "notes.txt", &sum);
        let mut state = None;
        let (listed, expected, _) =
            parse_hash_line(line.trim_end_matches('\n'), "MD5", Some(32), &mut state).expect("line reads back");
        assert_eq!(unescape_filename(&listed).0, "notes.txt");
        let again = compute_digest(Algorithm::Md5, 128, data);
        let report = verify_report(&f, "md5sum", &listed, &expected, Some(&again));
        assert!(report.passed);
        assert_eq!(report.text, "notes.txt: OK\n");
    }
}

#[test]
fn check_run_goes_on_after_failures_and_stops_only_on_strict_malformed_lines() {
    let mut f = flags(false, false, false, false);
    f.is_check = true;
    let t = CheckTally::new();
    let (t, a) = check_step(&f, t, CheckEvent::NamedFileUnopened);
    assert_eq!(a, CheckAction::Continue);
    assert_eq!(t.missing_file, 1);
    let (t, a) = check_step(&f, t, CheckEvent::Checked(false, true));
    assert_eq!(a, CheckAction::Continue);
    assert_eq!((t.failed_cksum, t.failed_open_file), (1, 1));
    let (t, a) = check_step(&f, t, CheckEvent::Checked(false, false));
    assert_eq!((t.failed_cksum, t.failed_open_file, a), (2, 1, CheckAction::Continue));
    let (t, a) = check_step(&f, t, CheckEvent::Malformed);
    assert_eq!((t.bad_format, a), (1, CheckAction::Continue));
    let (t, a) = check_step(&f, t, CheckEvent::ChecksumFileEnded(false));
    assert_eq!(a, CheckAction::WarnNoValidLines);
    assert!(t.no_valid_lines);
    assert!(tally_failed(&f, &t));
    f.is_warn = true;
    assert_eq!(check_step(&f, t, CheckEvent::Malformed).1, CheckAction::WarnMalformed);
    f.is_strict = true;
    assert_eq!(check_step(&f, t, CheckEvent::Malformed).1, CheckAction::Stop);
    let clean = check_step(&f, CheckTally::new(), CheckEvent::Checked(true, false));
    assert_eq!(clean.1, CheckAction::Continue);
    assert!(!tally_failed(&f, &clean.0));
}

#[test]
fn escaped_names_with_backslashes_read_back() {
    for name in ["a\\b", "dir\\", "\\\\", "x\\\ny", "tab\\\rz", "plain"] {
        let (escaped, prefix) = escape_filename(name);
        let (back, back_prefix) = unescape_filename(&escaped);
        assert_eq!(back, name);
        assert_eq!(back_prefix, prefix);
    }
    // A backslash followed by `n` does not come back.
    let (escaped, _) = escape_filename("a\\nb");
    assert_eq!(unescape_filename(&escaped).0, "a\nb");
}
