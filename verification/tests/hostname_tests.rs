use syskits::hostname::{
    addresses_line, alias_line, boot_host_name, check_name, choose_name, default_type, dns_domain,
    emit_getopt_style_error, invalid_name_message, ip_addresses_text, list_interface_address, name_from_file_text,
    needs_boot_fallback, program_name, resolve_name_type, set_name_plan, short_name, AddrFamily, NameType,
    SetRequest,
};

fn s(v: &[&str]) -> Vec<String> {
    v.iter().map(|x| x.to_string()).collect()
}

#[test]
fn test_check_name() {
    assert!(check_name("host"));
    assert!(check_name("host.example"));
    assert!(check_name("host-1"));
    assert!(!check_name(""));
    assert!(!check_name("-host"));
    assert!(!check_name("host-"));
    assert!(!check_name("host..example"));
    assert!(!check_name("host.-example"));
    assert!(!check_name("host#.example"));
}

#[test]
fn test_default_type_from_progname() {
    assert_eq!(default_type("hostname"), NameType::Default);
    assert_eq!(default_type("dnsdomainname"), NameType::Dns);
    assert_eq!(default_type("domainname"), NameType::Nis);
    assert_eq!(default_type("ypdomainname"), NameType::NisDef);
    assert_eq!(default_type("nisdomainname"), NameType::NisDef);
}

// Own cases.

#[test]
fn program_name_is_the_last_part_of_the_path() {
    assert_eq!(program_name(Some("/usr/bin/dnsdomainname")), "dnsdomainname");
    assert_eq!(program_name(Some("/usr/bin/")), "hostname");
    assert_eq!(program_name(None), "hostname");
}

#[test]
fn name_types_from_options() {
    assert_eq!(resolve_name_type(NameType::Default, &s(&["hostname", "-s"])), NameType::Short);
    assert_eq!(resolve_name_type(NameType::Default, &s(&["hostname", "--fqdn"])), NameType::Fqdn);
    assert_eq!(resolve_name_type(NameType::Default, &s(&["hostname", "-d", "-i"])), NameType::Ip);
    assert_eq!(resolve_name_type(NameType::Dns, &s(&["dnsdomainname"])), NameType::Dns);
}

#[test]
fn getopt_style_errors() {
    assert_eq!(
        emit_getopt_style_error("hostname", &s(&["hostname", "-x"])),
        Some("hostname: invalid option -- 'x'".to_string())
    );
    assert_eq!(
        emit_getopt_style_error("hostname", &s(&["hostname", "--bogus"])),
        Some("hostname: unrecognized option '--bogus'".to_string())
    );
    assert_eq!(
        emit_getopt_style_error("hostname", &s(&["hostname", "-F"])),
        Some("hostname: option requires an argument -- 'F'".to_string())
    );
    assert_eq!(emit_getopt_style_error("hostname", &s(&["hostname", "-s"])), None);
}

#[test]
fn aliases_from_the_hosts_file() {
    let hosts = "# comment\n127.0.0.1 localhost\n10.0.0.5 box box.lan mybox\n";
    assert_eq!(alias_line(hosts, "box"), "box.lan mybox\n");
    assert_eq!(alias_line(hosts, "other"), "\n");
}

#[test]
fn names_from_a_file() {
    assert_eq!(name_from_file_text("# comment\n\nmyhost\nother\n"), "myhost");
    assert_eq!(name_from_file_text("# only a comment\n"), "");
}

#[test]
fn short_and_domain_names() {
    assert_eq!(short_name("box.example.com"), "box");
    assert_eq!(short_name("box"), "box");
    assert_eq!(dns_domain("box.example.com"), Some("example.com".to_string()));
    assert_eq!(dns_domain("box"), None);
}

#[test]
fn setting_names() {
    assert!(matches!(set_name_plan(NameType::Default, "  newhost "), SetRequest::Host(h) if h == "newhost"));
    assert!(matches!(set_name_plan(NameType::Default, "bad..name"), SetRequest::Invalid));
    assert!(matches!(set_name_plan(NameType::Nis, "nisdom"), SetRequest::Domain(d) if d == "nisdom"));
    assert!(matches!(set_name_plan(NameType::Short, "x"), SetRequest::Usage));
    assert_eq!(invalid_name_message("hostname"), "hostname: the specified hostname is invalid");
}

#[test]
fn boot_names() {
    assert_eq!(boot_host_name(""), "localhost");
    assert_eq!(boot_host_name("(none)"), "localhost");
    assert_eq!(boot_host_name("box"), "box");
    assert!(needs_boot_fallback(true, true, None));
    assert!(!needs_boot_fallback(true, true, Some("box")));
}

#[test]
fn choosing_the_name_to_set() {
    assert_eq!(choose_name(None, &s(&["box"])), Ok(Some("box".to_string())));
    assert_eq!(choose_name(Some("a".to_string()), &s(&["b"])), Err(()));
    assert_eq!(choose_name(None, &s(&["a", "b"])), Err(()));
    assert_eq!(choose_name(None, &[]), Ok(None));
}

#[test]
fn interface_addresses() {
    assert!(list_interface_address(true, false, true, AddrFamily::Inet, 0, false));
    assert!(!list_interface_address(true, true, true, AddrFamily::Inet, 0, false));
    assert!(!list_interface_address(true, false, true, AddrFamily::Inet6, 0xfe80, true));
    assert!(!list_interface_address(true, false, true, AddrFamily::Inet6, 0xff02, false));
    assert!(list_interface_address(true, false, true, AddrFamily::Inet6, 0x2001, false));
    assert_eq!(addresses_line(&s(&["10.0.0.5", "fd00::1"])), "10.0.0.5 fd00::1 \n");
}

#[test]
fn ip_addresses_are_separated_by_single_spaces() {
    let v: Vec<String> = vec!["127.0.1.1".to_string(), "::1".to_string(), "10.0.0.2".to_string()];
    assert_eq!(ip_addresses_text(&v), "127.0.1.1 ::1 10.0.0.2");
    assert_eq!(ip_addresses_text(&v[..1]), "127.0.1.1");
    assert_eq!(ip_addresses_text(&[]), "");
}
