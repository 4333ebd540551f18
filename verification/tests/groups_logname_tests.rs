use syskits::groups::{groups_collect_for_users, groups_render_classic_text, sort_groups, GroupsEntry, GroupsRequest};
use syskits::logname::{logname_semantic, logname_semantic_from_parse_error};

fn table() -> Vec<(u32, String)> {
    vec![(0, "root".to_string()), (10, "wheel".to_string()), (100, "users".to_string())]
}

#[test]
fn groups_of_the_process() {
    let r = groups_collect_for_users(&GroupsRequest::Process(vec![100, 10]), &table());
    assert_eq!(r.classic_text, "users wheel\n");
    assert_eq!(r.stderr_text, "");
    assert_eq!(r.exit_code, 0);
    assert_eq!(r.entries.len(), 1);
    assert_eq!(r.entries[0].user, None);
}

#[test]
fn a_group_without_a_name_is_shown_by_number() {
    let r = groups_collect_for_users(&GroupsRequest::Process(vec![0, 4242]), &table());
    assert_eq!(r.classic_text, "root 4242\n");
    assert_eq!(r.stderr_text, "groups: cannot find name for group ID 4242\n");
    assert_eq!(r.exit_code, 1);
}

#[test]
fn groups_of_named_users() {
    let request = GroupsRequest::Users(vec![
        ("alice".to_string(), Some(vec![100, 10])),
        ("ghost".to_string(), None),
        ("root".to_string(), Some(vec![0])),
    ]);
    let r = groups_collect_for_users(&request, &table());
    assert_eq!(r.classic_text, "alice : users wheel\nroot : root\n");
    assert_eq!(r.stderr_text, "groups: 'ghost': no such user\n");
    assert_eq!(r.exit_code, 1);
    assert_eq!(r.entries.len(), 2);
}

#[test]
fn classic_text_of_entries() {
    let entries = vec![
        GroupsEntry { user: None, groups: vec!["a".to_string(), "b".to_string()] },
        GroupsEntry { user: Some("u".to_string()), groups: vec![] },
    ];
    assert_eq!(groups_render_classic_text(&entries), "a b\nu : \n");
    assert_eq!(groups_render_classic_text(&[]), "");
}

#[test]
fn logname_with_and_without_a_login() {
    let r = logname_semantic(Some("alice"));
    assert_eq!(r.classic_text, "alice\n");
    assert_eq!(r.exit_code, 0);
    assert_eq!(r.rows[0].source, "posix:getlogin");
    assert!(r.rows[0].available);
    let r = logname_semantic(None);
    assert_eq!(r.classic_text, "");
    assert_eq!(r.stderr_text, "logname: no login name\n");
    assert_eq!(r.exit_code, 1);
    assert!(!r.rows[0].available);
}

#[test]
fn logname_parse_errors() {
    let r = logname_semantic_from_parse_error("error: unexpected argument\n", true, false);
    assert_eq!(r.stderr_text, "error: unexpected argument\n");
    assert_eq!(r.exit_code, 1);
    let r = logname_semantic_from_parse_error("Usage: logname\n", false, true);
    assert_eq!(r.classic_text, "Usage: logname\n");
    assert_eq!(r.exit_code, 0);
}

#[test]
fn effective_group_comes_first() {
    assert_eq!(sort_groups(&vec![4, 24, 1000, 27], 1000), vec![1000, 4, 24, 27]);
    assert_eq!(sort_groups(&vec![4, 24, 27], 1000), vec![1000, 4, 24, 27]);
    assert_eq!(sort_groups(&vec![1000, 4, 1000], 1000), vec![1000, 4, 1000]);
    assert_eq!(sort_groups(&vec![], 5), vec![5]);
}
