use eternal_terminal::cli::{
    cli_host_has_explicit_port, connect_target, etterminal_path, jump_hostname, log_level,
    resolve_destination, tries_again,
};
use eternal_terminal::host::{client_term, local_username, parse_destination, HostError};

fn parsed(arg: &str) -> (String, String, u16) {
    let d = parse_destination(arg, None, 2022, "me").unwrap();
    assert_eq!(d.host, d.host_alias);
    (d.user, d.host, d.et_port)
}

fn triple(user: &str, host: &str, port: u16) -> (String, String, u16) {
    (user.to_string(), host.to_string(), port)
}

#[test]
fn names_and_ports() {
    assert_eq!(parsed("host"), triple("me", "host", 2022));
    assert_eq!(parsed("joe@host"), triple("joe", "host", 2022));
    assert_eq!(parsed("joe@host:3000"), triple("joe", "host", 3000));
    assert_eq!(parsed("10.0.0.1:+22"), triple("me", "10.0.0.1", 22));
    assert_eq!(parsed("@host"), triple("me", "host", 2022));
    assert_eq!(parsed("a@b@c:1"), triple("a", "b@c", 1));
    assert_eq!(parsed("host:00065535"), triple("me", "host", 65535));
    assert_eq!(parsed(""), triple("me", "", 2022));
}

#[test]
fn ipv6_addresses() {
    assert_eq!(parsed("joe@::1"), triple("joe", "::1", 2022));
    assert_eq!(parsed("fe80::1:2"), triple("me", "fe80::1:2", 2022));
    assert_eq!(parsed("1:2:3:4:5:6:7:8"), triple("me", "1:2:3:4:5:6:7:8", 2022));
    assert_eq!(
        parsed("1:2:3:4:5:6:7:8:3000"),
        triple("me", "1:2:3:4:5:6:7:8", 3000)
    );
    assert_eq!(
        parsed("1:2:3:4:5:6::7:8"),
        triple("me", "1:2:3:4:5:6::7:8", 2022)
    );
}

#[test]
fn default_users() {
    let user = |arg, default| parse_destination(arg, default, 1, "me").unwrap().user;
    assert_eq!(user("host", Some("joe")), "joe");
    assert_eq!(user("ann@host", Some("joe")), "ann");
    assert_eq!(user("@host", Some("joe")), "me");
    assert_eq!(user("host", Some("")), "me");
}

#[test]
fn invalid_destinations() {
    for arg in [
        "host:", "host:x", "host:-1", "host:65536", "host:+", "host:1 ", "1:2:3:4:5:6:7:8:x",
        "host:99999999999999999999",
    ] {
        assert!(
            matches!(parse_destination(arg, None, 1, "me"), Err(HostError::InvalidPort)),
            "{arg}"
        );
    }
    match parse_destination("joe@a:b:c", None, 1, "me") {
        Err(HostError::InvalidHost(host)) => assert_eq!(host, "a:b:c"),
        other => panic!("{other:?}"),
    }
}

#[test]
fn a_given_username_replaces_the_one_in_the_destination() {
    let d = resolve_destination("joe@host", Some("ann"), 2022, "me").unwrap();
    assert_eq!(d.user, "ann");
    let d = resolve_destination("joe@host", None, 2022, "me").unwrap();
    assert_eq!(d.user, "joe");
    let d = resolve_destination("joe@host", Some(""), 2022, "me").unwrap();
    assert_eq!(d.user, "joe");
    let d = resolve_destination("host", None, 2022, "me").unwrap();
    assert_eq!(d.user, "me");
}

#[test]
fn a_port_in_the_destination_counts() {
    let port = |arg| resolve_destination(arg, None, 4000, "me").unwrap().et_port;
    assert_eq!(port("host"), 4000);
    assert_eq!(port("host:3000"), 3000);
    assert_eq!(port("::1"), 4000);
    assert_eq!(port("1:2:3:4:5:6:7:8:3000"), 3000);
    assert_eq!(port("a:b@host:3000"), 4000);
    assert!(resolve_destination("host:x", None, 4000, "me").is_err());
}

#[test]
fn explicit_ports() {
    assert!(!cli_host_has_explicit_port("host"));
    assert!(cli_host_has_explicit_port("host:1"));
    assert!(!cli_host_has_explicit_port("::1"));
    assert!(cli_host_has_explicit_port("1:2:3:4:5:6:7:8:9"));
}

#[test]
fn jump_hosts() {
    assert_eq!(jump_hostname("jump"), "jump");
    assert_eq!(jump_hostname("joe@jump:22"), "jump");
    assert_eq!(jump_hostname("jump:x"), "jump:x");
    assert_eq!(jump_hostname("joe@::1"), "::1");
    let dest = parse_destination("joe@inner:3000", None, 2022, "me").unwrap();
    let t = connect_target(&dest, Some("ann@jump:22"), 2023);
    assert_eq!((t.host.as_str(), t.port, t.jumphost), ("jump", 2023, true));
    let t = connect_target(&dest, None, 2023);
    assert_eq!((t.host.as_str(), t.port, t.jumphost), ("inner", 3000, false));
}

#[test]
fn defaults_of_the_environment() {
    assert_eq!(local_username(Some("a".into()), Some("b".into())), "a");
    assert_eq!(local_username(None, Some("b".into())), "b");
    assert_eq!(local_username(None, None), "user");
    assert_eq!(client_term(Some("vt100".into())), "vt100");
    assert_eq!(client_term(None), "xterm-256color");
}

#[test]
fn options() {
    assert_eq!(etterminal_path(Some("x".into()), true), Some("x".to_string()));
    assert_eq!(
        etterminal_path(None, true),
        Some("/usr/local/bin/etterminal".to_string())
    );
    assert_eq!(etterminal_path(None, false), None);
    assert_eq!(
        [0, 1, 2, 3, 4].map(log_level),
        ["warn", "info", "debug", "trace", "trace"]
    );
    assert!(tries_again(2));
    assert!(!tries_again(3));
}
