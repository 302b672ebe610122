use eternal_terminal::ssh_setup::{
    alphabet_char, gen_random_alphanum, mark_for_renewal, parse_idpasskey, session_keys, setup_ssh,
    ssh_command, ssh_failed, SetupError, SshSetupOptions,
};

#[test]
fn parse_idpasskey_basic() {
    let id = "XXXabcdefghijkl";
    let pass = "0123456789abcdef0123456789abcdef";
    let buf = format!("noise\nIDPASSKEY:{id}/{pass}\nmore");
    let (i, p) = parse_idpasskey(&buf).unwrap();
    assert_eq!(i, id);
    assert_eq!(p, pass);
}

#[test]
fn keys_of_full_length_are_read() {
    let id = "0123456789abcdef";
    let pass = "ABCDEFGHIJKLMNOPQRSTUVWXYZabcdef";
    let keys = session_keys(&format!("h\u{e9}llo IDPASSKEY:{id}/{pass}ghi\n")).unwrap();
    assert_eq!(keys.id, id);
    assert_eq!(keys.passkey, pass);
    assert!(keys.has_expected_lengths());
}

#[test]
fn only_letters_and_digits_count() {
    let (id, pass) =
        parse_idpasskey("IDPASSKEY:a/0-1_2 3\u{e9}456789abcdef0123456789abcdef0123456789").unwrap();
    assert_eq!(id, "a");
    assert_eq!(pass, "0123456789abcdef0123456789abcdef");
}

#[test]
fn key_errors() {
    assert!(matches!(session_keys(" \t\n\u{3000}"), Err(SetupError::NoOutput)));
    match session_keys("permission denied") {
        Err(SetupError::NoMarker(output)) => assert_eq!(output, "permission denied"),
        other => panic!("{other:?}"),
    }
    assert!(matches!(
        session_keys("IDPASSKEY:abc/def"),
        Err(SetupError::Truncated)
    ));
    // The 49 bytes end within a character.
    let cut = format!("IDPASSKEY:{}\u{e9}", "a".repeat(48));
    assert!(matches!(session_keys(&cut), Err(SetupError::Truncated)));
    let whole = format!("IDPASSKEY:/{}\u{e9}", "a".repeat(46));
    assert!(matches!(session_keys(&whole), Err(SetupError::EmptyKeys)));
    let no_slash = format!("IDPASSKEY:{}", "a".repeat(49));
    assert!(matches!(session_keys(&no_slash), Err(SetupError::MissingPasskey)));
    let no_passkey = format!("IDPASSKEY:a/{}", "-".repeat(47));
    assert!(matches!(session_keys(&no_passkey), Err(SetupError::EmptyKeys)));
}

#[test]
fn unexpected_lengths_are_noticed() {
    let keys = session_keys(&format!("IDPASSKEY:a/{}", "b".repeat(47))).unwrap();
    assert_eq!(keys.passkey, "b".repeat(32));
    assert!(!keys.has_expected_lengths());
}

#[test]
fn random_text() {
    let a = gen_random_alphanum(64);
    let b = gen_random_alphanum(64);
    assert_eq!(a.len(), 64);
    assert!(a.chars().all(|c| c.is_ascii_alphanumeric()));
    assert_ne!(a, b);
    assert_eq!(gen_random_alphanum(0), "");
    let all: String = (0..62).map(alphabet_char).collect();
    assert_eq!(
        all,
        "0123456789ABCDEFGHIJKLMNOPQRSTUVWXYZabcdefghijklmnopqrstuvwxyz"
    );
    assert_eq!(mark_for_renewal("abcdef"), "XXXdef");
    assert_eq!(mark_for_renewal("ab"), "XX");
}

fn options() -> SshSetupOptions {
    SshSetupOptions {
        user: "joe".into(),
        host_alias: "box".into(),
        kill_other_sessions: false,
        verbose: 0,
        etterminal_path: None,
        server_fifo: None,
        ssh_options: vec![],
        jumphost: None,
    }
}

#[test]
fn the_plain_command() {
    assert_eq!(
        ssh_command(&options(), "ID", "KEY", "vt100"),
        vec!["joe@box", "echo 'ID/KEY_vt100' | etterminal --verbose=0"]
    );
}

#[test]
fn the_command_with_everything() {
    let opts = SshSetupOptions {
        kill_other_sessions: true,
        verbose: 123,
        etterminal_path: Some("/opt/et".into()),
        server_fifo: Some("/tmp/f".into()),
        ssh_options: vec!["Port=2222".into(), "Compression=yes".into()],
        jumphost: Some("ann@jump".into()),
        ..options()
    };
    assert_eq!(
        ssh_command(&opts, "ID", "KEY", "vt100"),
        vec![
            "-J",
            "ann@jump",
            "joe@box",
            "-oPort=2222",
            "-oCompression=yes",
            "pkill etterminal -u joe; sleep 0.5; \
             echo 'ID/KEY_vt100' | /opt/et --verbose=123 --serverfifo=/tmp/f",
        ]
    );
}

#[test]
fn a_host_without_a_user() {
    let opts = SshSetupOptions {
        user: String::new(),
        ..options()
    };
    assert_eq!(ssh_command(&opts, "ID", "KEY", "t")[0], "box");
}

#[test]
fn new_sessions_have_random_keys() {
    let one = setup_ssh(&options(), "vt100");
    let two = setup_ssh(&options(), "vt100");
    assert_eq!(one.len(), 2);
    assert_eq!(one[0], "joe@box");
    assert_ne!(one[1], two[1]);
    assert!(one[1].starts_with("echo 'XXX"));
    assert!(one[1].ends_with("_vt100' | etterminal --verbose=0"));
    assert_eq!(one[1].len(), "echo '/_vt100' | etterminal --verbose=0".len() + 16 + 32);
}

#[test]
fn ssh_fails_without_output_only() {
    assert!(ssh_failed(false, ""));
    assert!(!ssh_failed(false, "IDPASSKEY:"));
    assert!(!ssh_failed(true, ""));
}
