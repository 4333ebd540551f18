use syskits::kill::{has_userspace_handler, no_handler_line};
use syskits::kill::{
    kill_get_signal_value, kill_handle_obsolete, kill_list, kill_parse_pids, kill_parse_signal_value,
    kill_print_signal_with, kill_print_signals_coreutils, kill_print_signals_shell, kill_table, parse_queue_value,
    parse_timeout, sending_signal_line, signal_name_of, KillCompatMode, SIGNAL_COUNT,
};

fn s(v: &[&str]) -> Vec<String> {
    v.iter().map(|x| x.to_string()).collect()
}

// Real-time signals as glibc numbers them on Linux.
const RTMIN: i32 = 34;
const RTMAX: i32 = 64;

fn print_signal(arg: &str) -> Result<String, String> {
    kill_print_signal_with(arg, RTMIN, RTMAX)
}

#[test]
fn kill_parse_pids_valid_pids_returns_parsed_integers() {
    assert_eq!(kill_parse_pids(&s(&["1", "2", "3"])).unwrap(), vec![1, 2, 3]);
}

#[test]
fn kill_parse_pids_invalid_pid_returns_error() {
    let err = kill_parse_pids(&s(&["1", "abc", "3"])).unwrap_err();
    assert_eq!(err, "failed to parse argument 'abc': invalid digit found in string");
}

#[test]
fn kill_parse_pids_empty_input_returns_empty_vector() {
    let pids: Vec<String> = vec![];
    assert_eq!(kill_parse_pids(&pids).unwrap().len(), 0);
}

#[test]
fn kill_parse_pids_negative_pids_returns_parsed_integers() {
    assert_eq!(kill_parse_pids(&s(&["-1", "2", "-3"])).unwrap(), vec![-1, 2, -3]);
}

#[test]
fn kill_parse_pids_boundary_values_returns_parsed_integers() {
    assert_eq!(kill_parse_pids(&s(&["2147483647", "-2147483648"])).unwrap(), vec![2147483647, -2147483648]);
}

#[test]
fn kill_parse_pids_empty_string_returns_error() {
    let err = kill_parse_pids(&s(&["1", "", "3"])).unwrap_err();
    assert_eq!(err, "failed to parse argument '': cannot parse integer from empty string");
}

#[test]
fn kill_parse_pids_non_numeric_characters_returns_error() {
    let err = kill_parse_pids(&s(&["1", "a1b", "3"])).unwrap_err();
    assert_eq!(err, "failed to parse argument 'a1b': invalid digit found in string");
}

#[test]
fn kill_parse_pids_multiple_invalid_pids_returns_error() {
    let err = kill_parse_pids(&s(&["abc", "def", "ghi"])).unwrap_err();
    assert_eq!(err, "failed to parse argument 'abc': invalid digit found in string");
}

#[test]
fn kill_parse_signal_value_valid_signal_name_returns_signal_value() {
    assert_eq!(kill_parse_signal_value("HUP").unwrap(), 1);
}

#[test]
fn kill_parse_signal_value_valid_signal_number_returns_signal_value() {
    assert_eq!(kill_parse_signal_value("15").unwrap(), 15);
}

#[test]
fn kill_parse_signal_value_invalid_signal_name_returns_error() {
    assert_eq!(kill_parse_signal_value("INVALID").unwrap_err(), "unknown signal name 'INVALID'");
}

#[test]
fn kill_parse_signal_value_empty_signal_name_returns_error() {
    assert_eq!(kill_parse_signal_value("").unwrap_err(), "unknown signal name ''");
}

#[test]
fn kill_parse_signal_value_non_numeric_signal_number_returns_error() {
    assert_eq!(kill_parse_signal_value("abc").unwrap_err(), "unknown signal name 'abc'");
}

#[test]
fn kill_parse_signal_value_boundary_signal_number_returns_signal_value() {
    assert_eq!(kill_parse_signal_value("31").unwrap(), 31);
}

#[test]
fn kill_parse_signal_value_negative_signal_number_returns_error() {
    assert_eq!(kill_parse_signal_value("-1").unwrap_err(), "unknown signal name '-1'");
}

#[test]
fn kill_list_with_valid_signal_name_prints_signal_value() {
    let out = kill_list(Some("HUP"), KillCompatMode::Coreutils).unwrap();
    assert_eq!(out.trim(), "1");
}

#[test]
fn kill_list_with_invalid_signal_name_returns_error() {
    let err = kill_list(Some("INVALID"), KillCompatMode::Coreutils).unwrap_err();
    assert_eq!(err, "unknown signal name 'INVALID'");
}

#[test]
fn kill_list_with_no_argument_prints_all_signals() {
    let out = kill_list(None, KillCompatMode::Coreutils).unwrap();
    assert!(out.contains("HUP"));
    assert!(out.contains("KILL"));
    assert!(out.contains("TERM"));
    assert!(out.contains("RT<N>"));
}

#[test]
fn kill_list_with_empty_string_returns_error() {
    let err = kill_list(Some(""), KillCompatMode::Coreutils).unwrap_err();
    assert_eq!(err, "unknown signal name ''");
}

#[test]
fn kill_list_with_numeric_signal_value_prints_signal_name() {
    let out = kill_list(Some("15"), KillCompatMode::Coreutils).unwrap();
    assert_eq!(out.trim(), "TERM");
}

#[test]
fn kill_print_signals_empty_signals_list() {
    assert!(kill_print_signals_coreutils().ends_with('\n'));
}

#[test]
fn kill_print_signals_correct_format() {
    let output = kill_print_signals_coreutils();
    let signals: Vec<&str> = output.trim().split(' ').collect();
    assert!(!signals.is_empty());
    assert!(signals.contains(&"HUP"));
    assert!(signals.contains(&"TERM"));
    assert!(signals.contains(&"KILL"));
}

#[test]
fn kill_print_signals_no_duplicate_signals() {
    let output = kill_print_signals_coreutils();
    let signals: Vec<&str> = output.trim().split(' ').collect();
    let unique: std::collections::HashSet<&str> = signals.iter().copied().collect();
    assert_eq!(signals.len(), unique.len());
}

#[test]
fn kill_print_signals_proper_spacing() {
    let output = kill_print_signals_coreutils();
    assert!(!output.contains("  "));
    assert!(!output.trim().starts_with(' '));
}

#[test]
fn kill_print_signal_valid_signal_name_returns_signal_value() {
    assert_eq!(print_signal("HUP").unwrap().trim(), "1");
}

#[test]
fn kill_print_signal_valid_signal_number_returns_signal_name() {
    assert_eq!(print_signal("15").unwrap().trim(), "TERM");
}

#[test]
fn kill_print_signal_invalid_signal_name_returns_error() {
    assert_eq!(print_signal("INVALID").unwrap_err(), "unknown signal name 'INVALID'");
}

#[test]
fn kill_print_signal_empty_signal_name_returns_error() {
    assert_eq!(print_signal("").unwrap_err(), "unknown signal name ''");
}

#[test]
fn kill_print_signal_non_numeric_signal_number_returns_error() {
    assert_eq!(print_signal("abc").unwrap_err(), "unknown signal name 'abc'");
}

#[test]
fn kill_print_signal_boundary_signal_number_returns_signal_name() {
    assert_eq!(print_signal("31").unwrap().trim(), "SYS");
}

#[test]
fn kill_print_signal_negative_signal_number_returns_error() {
    assert_eq!(print_signal("-1").unwrap_err(), "unknown signal name '-1'");
}

#[test]
fn kill_print_signal_valid_signal_with_sig_prefix_returns_signal_value() {
    assert_eq!(print_signal("SIGHUP").unwrap().trim(), "1");
}

#[test]
fn kill_table_correct_format() {
    let output = kill_table();
    let lines: Vec<&str> = output.trim().split('\n').collect();
    assert!(!lines.is_empty());
    for line in lines {
        let parts: Vec<&str> = line.split_whitespace().collect();
        assert!(parts.len() % 2 == 0);
    }
}

#[test]
fn kill_table_proper_spacing() {
    assert!(!kill_table().trim().starts_with(' '));
}

#[test]
fn kill_table_correct_number_of_lines() {
    let output = kill_table();
    let lines: Vec<&str> = output.trim().split('\n').collect();
    assert!(lines.len() >= 5);
    assert!(output.contains("HUP"));
    assert!(output.contains("KILL"));
}

#[test]
fn kill_table_correct_signal_indices() {
    let output = kill_table();
    assert!(output.contains("HUP"));
    assert!(output.contains("INT"));
    assert!(output.contains("TERM"));
    assert!(output.contains("KILL"));
}

#[test]
fn kill_table_contains_all_signals() {
    let output = kill_table();
    for i in 0..SIGNAL_COUNT {
        assert!(output.contains(signal_name_of(i)));
    }
}

#[test]
fn kill_handle_obsolete_with_obsolete_signal() {
    let mut args = s(&["kill", "-9", "1234"]);
    assert_eq!(kill_handle_obsolete(&mut args), Some(9));
    assert_eq!(args, s(&["kill", "1234"]));
}

#[test]
fn kill_handle_obsolete_with_no_obsolete_signal() {
    let mut args = s(&["kill", "1234"]);
    assert_eq!(kill_handle_obsolete(&mut args), None);
    assert_eq!(args, s(&["kill", "1234"]));
}

#[test]
fn kill_handle_obsolete_with_invalid_signal() {
    let mut args = s(&["kill", "-invalid", "1234"]);
    assert_eq!(kill_handle_obsolete(&mut args), None);
    assert_eq!(args, s(&["kill", "-invalid", "1234"]));
}

#[test]
fn kill_handle_obsolete_with_multiple_signals() {
    let mut args = s(&["kill", "-9", "-15", "1234"]);
    assert_eq!(kill_handle_obsolete(&mut args), Some(9));
    assert_eq!(args, s(&["kill", "-15", "1234"]));
}

#[test]
fn kill_handle_obsolete_with_no_args() {
    let mut args: Vec<String> = vec![];
    assert_eq!(kill_handle_obsolete(&mut args), None);
}

#[test]
fn kill_handle_obsolete_with_single_arg() {
    let mut args = s(&["kill"]);
    assert_eq!(kill_handle_obsolete(&mut args), None);
    assert_eq!(args, s(&["kill"]));
}

#[test]
fn kill_handle_obsolete_with_valid_signal_name() {
    let mut args = s(&["kill", "-HUP", "1234"]);
    assert_eq!(kill_handle_obsolete(&mut args), Some(1));
    assert_eq!(args, s(&["kill", "1234"]));
}

#[test]
fn kill_handle_obsolete_with_valid_signal_number() {
    let mut args = s(&["kill", "-15", "1234"]);
    assert_eq!(kill_handle_obsolete(&mut args), Some(15));
    assert_eq!(args, s(&["kill", "1234"]));
}

#[test]
fn kill_handle_obsolete_with_mixed_valid_and_invalid_signals() {
    let mut args = s(&["kill", "-9", "-invalid", "1234"]);
    assert_eq!(kill_handle_obsolete(&mut args), Some(9));
    assert_eq!(args, s(&["kill", "-invalid", "1234"]));
}

#[test]
fn kill_handle_obsolete_with_signal_prefix_but_no_signal() {
    let mut args = s(&["kill", "-", "1234"]);
    assert_eq!(kill_handle_obsolete(&mut args), None);
    assert_eq!(args, s(&["kill", "-", "1234"]));
}

// Own cases.

#[test]
fn every_signal_name_reads_back_as_its_number() {
    for i in 1..SIGNAL_COUNT {
        let name = signal_name_of(i);
        assert_eq!(kill_parse_signal_value(name).unwrap(), i);
        assert_eq!(kill_parse_signal_value(&format!("SIG{name}")).unwrap(), i);
        assert_eq!(print_signal(&i.to_string()).unwrap(), format!("{name}\n"));
        assert_eq!(print_signal(name).unwrap(), format!("{i}\n"));
    }
}

#[test]
fn signal_names_ignore_case() {
    assert_eq!(kill_parse_signal_value("term").unwrap(), 15);
    assert_eq!(kill_parse_signal_value("SigKill").unwrap(), 9);
}

#[test]
fn exit_status_numbers_name_their_signal() {
    // 128 + 9: the status of a process killed by KILL.
    assert_eq!(kill_parse_signal_value("137").unwrap(), 9);
    assert_eq!(print_signal("137").unwrap(), "KILL\n");
}

#[test]
fn aliases_and_real_time_names() {
    assert_eq!(print_signal("IOT").unwrap(), "6\n");
    assert_eq!(print_signal("RTMIN").unwrap(), format!("{RTMIN}\n"));
    assert_eq!(print_signal("RTMIN+2").unwrap(), format!("{}\n", RTMIN + 2));
    assert_eq!(print_signal("RTMAX-1").unwrap(), format!("{}\n", RTMAX - 1));
    assert_eq!(print_signal("34").unwrap(), "RTMIN\n");
    assert_eq!(print_signal("64").unwrap(), "RTMAX\n");
}

#[test]
fn shell_list_has_five_columns() {
    let out = kill_print_signals_shell(RTMIN, RTMAX);
    let first = out.lines().next().unwrap();
    assert_eq!(first.matches(')').count(), 5);
    assert!(out.contains(" 1) SIGHUP"));
    assert!(out.contains("SIGRTMIN"));
}

#[test]
fn getting_the_signal_to_send() {
    assert_eq!(kill_get_signal_value(None, None, None).unwrap(), 15);
    assert_eq!(kill_get_signal_value(Some(9), None, None).unwrap(), 9);
    assert_eq!(kill_get_signal_value(None, Some("HUP"), None).unwrap(), 1);
    assert_eq!(kill_get_signal_value(None, Some("BOGUS"), None).unwrap_err(), "unknown signal name 'BOGUS'");
}

#[test]
fn queue_and_timeout_values() {
    assert_eq!(parse_queue_value("42").unwrap(), 42);
    assert!(parse_queue_value("x").is_err());
    assert!(parse_timeout(&s(&["100", "KILL"])).is_ok());
}

#[test]
fn verbose_line() {
    assert_eq!(sending_signal_line(15, 1234), "sending signal 15 to pid 1234");
}

#[test]
fn compat_modes() {
    assert_eq!(KillCompatMode::from_env_value(Some("bash")), KillCompatMode::Bash);
    assert_eq!(KillCompatMode::from_env_value(None), KillCompatMode::default());
}

fn stat_line(mask: &str) -> String {
    // pid (comm) then 31 words before the mask of caught signals.
    let mut words: Vec<String> = (0..31).map(|i| i.to_string()).collect();
    words.push(mask.to_string());
    words.push("7".to_string());
    format!("42 (my prog) {}", words.join(" "))
}

#[test]
fn handler_mask_is_read_after_the_command_name() {
    // Bit 14 (signal 15) set, bit 0 (signal 1) clear.
    let line = stat_line("16384");
    assert!(has_userspace_handler(&line, 15));
    assert!(!has_userspace_handler(&line, 1));
    // A mask that is no number, or too few words, counts as a handler.
    assert!(has_userspace_handler(&stat_line("x"), 1));
    assert!(has_userspace_handler("42 (a) S 1 2", 1));
    assert!(has_userspace_handler("no parenthesis here", 9));
}

#[test]
fn no_handler_line_names_pid_and_signal() {
    assert_eq!(
        no_handler_line(1234, 10),
        "not signalling pid 1234, it has no userspace handler for signal 10"
    );
}
