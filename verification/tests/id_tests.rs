use syskits::id::{context_only, id_flags_validity_checks, id_get_delimiter, id_handle_users, IdState, IdSubject, Ids};

fn state(n: bool, u: bool, g: bool, gs: bool, r: bool, z: bool, c: bool, selinux: bool, user: bool) -> IdState {
    IdState {
        is_nflag: n,
        is_uflag: u,
        is_gflag: g,
        is_gsflag: gs,
        is_rflag: r,
        is_zflag: z,
        is_cflag: c,
        is_selinux_supported: selinux,
        is_user_specified: user,
        ids: None,
    }
}

fn users() -> Vec<(u32, String)> {
    vec![(0, "root".to_string()), (1000, "alice".to_string()), (2000, "bob".to_string())]
}

fn groups() -> Vec<(u32, String)> {
    vec![
        (0, "root".to_string()),
        (10, "wheel".to_string()),
        (20, "staff".to_string()),
        (30, "games".to_string()),
        (1000, "alice".to_string()),
        (2000, "bob".to_string()),
    ]
}

fn default_print(st: &IdState, ids: Ids, gs: Vec<u32>) -> String {
    let subjects = vec![IdSubject::Known(ids, gs)];
    id_handle_users(st, true, &subjects, &users(), &groups(), None).stdout
}

#[test]
fn test_id_get_delimiter_with_zero_flag() {
    let mut st = state(false, false, false, false, false, true, false, false, false);
    assert_eq!(id_get_delimiter(&mut st), "\0");
}

#[test]
fn test_id_get_delimiter_without_zero_flag() {
    let mut st = state(false, false, false, false, false, false, false, false, false);
    assert_eq!(id_get_delimiter(&mut st), " ");
}

#[test]
fn test_valid_flags_default_format() {
    let mut st = state(false, false, false, false, false, false, false, false, false);
    let result = id_flags_validity_checks(&mut st);
    assert!(result.is_ok());
    assert!(result.unwrap());
}

#[test]
fn test_invalid_flags_name_or_real_in_default_format() {
    let mut st = state(true, false, false, false, true, false, false, false, false);
    let result = id_flags_validity_checks(&mut st);
    assert_eq!(result.unwrap_err(), "cannot print only names or real IDs in default format");
}

#[test]
fn test_invalid_flags_zero_in_default_format() {
    let mut st = state(false, false, false, false, false, true, false, false, false);
    let result = id_flags_validity_checks(&mut st);
    assert_eq!(result.unwrap_err(), "option --zero not permitted in default format");
}

#[test]
fn test_invalid_flags_context_with_user_specified() {
    let mut st = state(false, false, false, false, false, false, true, true, true);
    let result = id_flags_validity_checks(&mut st);
    assert_eq!(result.unwrap_err(), "cannot print security context when user specified");
}

#[test]
fn test_valid_flags_with_non_default_format() {
    let mut st = state(false, true, false, true, false, false, false, false, false);
    let result = id_flags_validity_checks(&mut st);
    assert!(result.is_ok());
    assert!(!result.unwrap());
}

#[test]
fn test_invalid_flags_name_without_printing() {
    let mut st = state(true, false, false, false, false, false, false, false, false);
    let result = id_flags_validity_checks(&mut st);
    assert_eq!(result.unwrap_err(), "cannot print only names or real IDs in default format");
}

#[test]
fn test_id_print_default_case() {
    let st = state(false, false, false, false, false, false, false, false, false);
    let out = default_print(&st, Ids { uid: 1000, gid: 1000, euid: 1000, egid: 1000 }, vec![1000, 10, 20]);
    assert!(out.contains("uid=1000"));
    assert!(out.contains("gid=1000"));
    assert!(out.contains("groups=1000"));
}

#[test]
fn test_id_print_with_name_flag() {
    let st = state(true, true, true, true, false, false, false, false, false);
    let out = default_print(&st, Ids { uid: 1000, gid: 1000, euid: 1000, egid: 1000 }, vec![1000, 10, 20]);
    assert!(out.contains("uid=1000"));
    assert!(out.contains("gid=1000"));
    assert!(out.contains("groups=1000"));
}

#[test]
fn test_id_print_with_real_id_flag() {
    let st = state(false, false, false, false, true, false, false, false, false);
    let out = default_print(&st, Ids { uid: 2000, gid: 2000, euid: 1000, egid: 1000 }, vec![1000, 10, 20]);
    assert!(out.contains("uid=2000"));
    assert!(out.contains("gid=2000"));
    assert!(out.contains("groups=1000"));
}

#[test]
fn test_id_print_with_zero_flag() {
    let st = state(false, false, false, true, false, true, false, false, false);
    let out = default_print(&st, Ids { uid: 1000, gid: 1000, euid: 1000, egid: 1000 }, vec![1000, 10, 20]);
    assert!(out.contains("groups=1000"));
}

#[test]
fn test_id_print_user_specified() {
    let st = state(false, true, true, true, false, false, false, false, true);
    let out = default_print(&st, Ids { uid: 2000, gid: 2000, euid: 2000, egid: 2000 }, vec![2000, 20, 30]);
    assert!(out.contains("uid=2000"));
    assert!(out.contains("gid=2000"));
    assert!(out.contains("groups=2000"));
}

#[test]
fn test_id_print_with_edge_cases() {
    let st = state(false, false, false, false, false, false, false, false, false);
    let out = default_print(&st, Ids { uid: 65535, gid: 65535, euid: 65535, egid: 65535 }, vec![]);
    assert!(out.contains("uid=65535"));
    assert!(out.contains("gid=65535"));
}

// Own cases.

#[test]
fn default_format_in_full() {
    let st = state(false, false, false, false, false, false, false, false, false);
    let out = default_print(&st, Ids { uid: 1000, gid: 1000, euid: 0, egid: 1000 }, vec![1000, 10]);
    assert_eq!(out, "uid=1000(alice) gid=1000(alice) euid=0(root) groups=1000(alice),10(wheel)\n");
}

#[test]
fn unknown_user_is_reported() {
    let st = state(false, true, false, false, false, false, false, false, true);
    let subjects = vec![IdSubject::NoSuchUser("nobody-here".to_string())];
    let r = id_handle_users(&st, false, &subjects, &users(), &groups(), None);
    assert_eq!(r.stdout, "");
    assert_eq!(r.stderr, "id: 'nobody-here': no such user\n");
    assert_eq!(r.exit_code, 1);
}

#[test]
fn user_id_only_with_names() {
    let st = state(true, true, false, false, false, false, false, false, false);
    let subjects = vec![IdSubject::Known(Ids { uid: 2000, gid: 2000, euid: 2000, egid: 2000 }, vec![2000])];
    let r = id_handle_users(&st, false, &subjects, &users(), &groups(), None);
    assert_eq!(r.stdout, "bob\n");
    assert_eq!(r.exit_code, 0);
}

#[test]
fn groups_with_zero_delimiter() {
    let st = state(false, false, false, true, false, true, false, false, false);
    let subjects = vec![IdSubject::Known(Ids { uid: 1000, gid: 1000, euid: 1000, egid: 1000 }, vec![1000, 10])];
    let r = id_handle_users(&st, false, &subjects, &users(), &groups(), None);
    assert_eq!(r.stdout, "1000\u{0}10\u{0}");
}

#[test]
fn context_alone() {
    assert_eq!(context_only(true, Some("unconfined_u:r"), false), Ok("unconfined_u:r\n".to_string()));
    assert_eq!(
        context_only(false, None, false),
        Err("--context (-Z) works only on an SELinux-enabled kernel".to_string())
    );
    assert_eq!(context_only(true, None, false), Err("can't get process context".to_string()));
}
