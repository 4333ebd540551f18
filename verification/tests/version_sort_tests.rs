use syskits::version_sort::compare_versions;

#[test]
fn numbers_compare_by_value() {
    assert_eq!(compare_versions("a2", "a10"), -1);
    assert_eq!(compare_versions("a10", "a2"), 1);
    assert_eq!(compare_versions("file1.txt", "file1.txt"), 0);
    assert_eq!(compare_versions("foo.tar.gz", "foo2.tar.gz"), -1);
    assert_eq!(compare_versions("v1.9", "v1.10"), -1);
}

#[test]
fn leading_zeros_only_break_ties() {
    assert_eq!(compare_versions("abc-1.007", "abc-1.7"), -1);
    assert_eq!(compare_versions("abc-1.7", "abc-1.007"), 1);
}

#[test]
fn tilde_letters_and_other_characters() {
    // `~` comes before the end of a part, which comes before letters.
    assert_eq!(compare_versions("a~", "a"), -1);
    assert_eq!(compare_versions("a", "ab"), -1);
    // Letters come before other characters.
    assert_eq!(compare_versions("aa", "a-"), -1);
    assert_eq!(compare_versions("a1b", "a1a"), 1);
}

#[test]
fn dots_come_first() {
    assert_eq!(compare_versions("", "a"), -1);
    assert_eq!(compare_versions(".", ".."), -1);
    assert_eq!(compare_versions("..", ".a"), -1);
    assert_eq!(compare_versions(".b", "a"), -1);
    assert_eq!(compare_versions(".b2", ".b10"), -1);
}

#[test]
fn suffixes_are_compared_after_the_names() {
    // Without their suffixes the names are equal; whole, `.gz` sorts after `.bz2`.
    assert_eq!(compare_versions("pkg-1.2.tar.gz", "pkg-1.2.tar.bz2"), 1);
    assert_eq!(compare_versions("pkg-1.2.tar.gz", "pkg-1.10.tar.gz"), -1);
}

#[test]
fn the_order_is_antisymmetric() {
    let names = ["", ".", "..", ".a", "a", "a~", "a1", "a01", "a10", "a-", "pkg-1.2.tar.gz", "pkg-1.2.tar.bz2", "x.1"];
    for a in names {
        for b in names {
            assert_eq!(compare_versions(a, b), -compare_versions(b, a));
            assert_eq!(compare_versions(a, b) == 0, a == b);
        }
    }
}
