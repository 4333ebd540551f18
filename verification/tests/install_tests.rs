use syskits::install::{
    check_conflicts, creating_directory_line, file_name_of, is_potential_directory_path, join_path,
    multi_destination, removed_line, selinux_supported, single_destination, strip_exit_message, verbose_copy_line,
    FileFacts, InstallError, Installer, KernelSupport, parse_octal_mode, backup_mode, simple_backup_name,
    numbered_backup_name, BackupMode,
};

#[test]
fn test_install_error_display() {
    let err = InstallError::ChmodFailed("/test/path".to_string());
    assert_eq!(err.message(), "failed to chmod '/test/path'");

    let err = InstallError::ChownFailed("/test/path".to_string(), "permission denied".to_string());
    assert_eq!(err.message(), "failed to chown '/test/path': permission denied");

    let err = InstallError::InvalidTarget("/test/path".to_string());
    assert_eq!(err.message(), "failed to access '/test/path': No such file or directory");

    let err = InstallError::InvalidUser("testuser".to_string());
    assert_eq!(err.message(), "invalid user: 'testuser'");

    let err = InstallError::InvalidGroup("testgroup".to_string());
    assert_eq!(err.message(), "invalid group: 'testgroup'");
}

// Own cases.

#[test]
fn more_error_messages() {
    let err = InstallError::BackupFailed("a".to_string(), "a~".to_string(), "denied".to_string());
    assert_eq!(err.message(), "cannot backup 'a' to 'a~': denied");
    let err = InstallError::OmittingDirectory("d".to_string());
    assert_eq!(err.message(), "omitting directory 'd'");
}

#[test]
fn conflicting_options() {
    assert_eq!(
        check_conflicts(true, true, false),
        Err("options --compare (-C) and --preserve-timestamps are mutually exclusive".to_string())
    );
    assert_eq!(
        check_conflicts(false, true, true),
        Err("options --compare (-C) and --strip are mutually exclusive".to_string())
    );
    assert_eq!(check_conflicts(true, false, true), Ok(()));
}

#[test]
fn file_names_and_joins() {
    assert_eq!(file_name_of("/usr/bin/ls"), Some("ls".to_string()));
    assert_eq!(file_name_of("dir/"), Some("dir".to_string()));
    assert_eq!(file_name_of("a/.."), None);
    assert_eq!(file_name_of("/"), None);
    assert_eq!(join_path("/tmp", "x"), "/tmp/x");
    assert_eq!(join_path("/tmp/", "x"), "/tmp/x");
    assert_eq!(join_path("", "x"), "x");
}

#[test]
fn a_joined_name_is_the_file_name_again() {
    for dir in ["/tmp", "/tmp/", "", "a/b", "/"] {
        for name in ["x", "file.txt", "..x"] {
            assert_eq!(file_name_of(&join_path(dir, name)), Some(name.to_string()));
        }
    }
}

#[test]
fn destinations() {
    assert_eq!(single_destination(false, "src/a.txt", "/dst", false, true), Ok("/dst/a.txt".to_string()));
    assert_eq!(single_destination(false, "src/a.txt", "/dst/b", false, false), Ok("/dst/b".to_string()));
    assert_eq!(
        single_destination(true, "a", "/dst", false, true),
        Err("cannot create regular file '/dst': Is a directory".to_string())
    );
    assert_eq!(single_destination(false, "d", "/dst", true, true), Err("omitting directory 'd'".to_string()));
    assert_eq!(multi_destination("/dst", "x/y", false), Ok(Some("/dst/y".to_string())));
    assert_eq!(multi_destination("/dst", "x", true), Err("omitting directory 'x'".to_string()));
}

#[test]
fn directory_paths() {
    assert!(is_potential_directory_path("a/", false));
    assert!(is_potential_directory_path("a", true));
    assert!(!is_potential_directory_path("a", false));
}

#[test]
fn verbose_lines() {
    assert_eq!(verbose_copy_line("a", "b", None), "'a' -> 'b'\n");
    assert_eq!(verbose_copy_line("a", "b", Some("b~")), "'a' -> 'b' (backup: 'b~')\n");
    assert_eq!(creating_directory_line("d"), "install: creating directory 'd'\n");
    assert_eq!(removed_line("f"), "removed 'f'\n");
}

#[test]
fn selinux_support() {
    assert!(!selinux_supported(KernelSupport::Unsupported));
    assert!(selinux_supported(KernelSupport::SELinux));
}

#[test]
fn copy_decisions() {
    let b = Installer::default();
    let f = FileFacts { is_file: true, mode: 0o100755, len: 10, uid: 0, gid: 0 };
    // A missing destination needs a copy.
    assert_eq!(b.need_copy(Some(true), None, Some(f), None, 0, 0), Some(true));
    // A destination with the same attributes leaves the choice to the contents.
    assert_eq!(b.need_copy(Some(true), Some(true), Some(f), Some(f), 0, 0), None);
    // Another length needs a copy.
    let g = FileFacts { len: 11, ..f };
    assert_eq!(b.need_copy(Some(true), Some(true), Some(f), Some(g), 0, 0), Some(true));
}

#[test]
fn strip_messages() {
    assert_eq!(strip_exit_message(1), "strip process terminated abnormally - exit code: 1");
    assert_eq!(strip_exit_message(-2), "strip process terminated abnormally - exit code: -2");
}

#[test]
fn numeric_modes_are_octal_up_to_07777() {
    assert_eq!(parse_octal_mode("755"), Some(0o755));
    assert_eq!(parse_octal_mode("0644"), Some(0o644));
    assert_eq!(parse_octal_mode("7777"), Some(0o7777));
    assert_eq!(parse_octal_mode("17777"), None);
    assert_eq!(parse_octal_mode("8"), None);
    assert_eq!(parse_octal_mode(""), None);
    assert_eq!(parse_octal_mode("u+x"), None);
}

#[test]
fn backup_control_words_name_modes() {
    assert_eq!(backup_mode(false, None, false, Some("numbered")), Ok(BackupMode::NoBackup));
    assert_eq!(backup_mode(true, Some("t"), false, None), Ok(BackupMode::Numbered));
    assert_eq!(backup_mode(true, None, false, Some("simple")), Ok(BackupMode::Simple));
    assert_eq!(backup_mode(false, None, true, None), Ok(BackupMode::Existing));
    assert_eq!(backup_mode(false, None, true, Some("off")), Ok(BackupMode::NoBackup));
    assert_eq!(backup_mode(true, Some(""), false, None), Ok(BackupMode::Existing));
    assert_eq!(
        backup_mode(true, Some("sometimes"), false, None),
        Err("invalid argument 'sometimes' for 'backup type'".to_string())
    );
}

#[test]
fn backup_names() {
    assert_eq!(simple_backup_name("dir/f", "~"), "dir/f~");
    assert_eq!(numbered_backup_name("dir/f", 12), "dir/f.~12~");
}
