//! What the command line asks for.

use vstd::prelude::*;

use crate::host;
use crate::host::{Destination, DestinationView, HostError, HostErrorView};
use crate::text;

verus! {

/// The port that an etserver listens on unless told otherwise.
pub const DEFAULT_PORT: u16 = 2022;

/// How often the first connection is tried.
pub const CONNECT_ATTEMPTS: u32 = 3;

/// How long to wait between two such attempts.
pub const CONNECT_PAUSE_MS: u64 = 1000;

/// Whether a destination has as many colons as one with a port.
pub open spec fn names_port(arg: Seq<char>) -> bool {
    text::occurrences(arg, ':') == 1 || text::occurrences(arg, ':') == 8
}

/// Whether a destination has as many colons as one with a port.
pub fn cli_host_has_explicit_port(host: &str) -> (r: bool)
    ensures
        r == names_port(host@),
        r == (text::occurrences(host@, ':') == 1 || text::occurrences(host@, ':') == 8),
{
    let chars: Vec<char> = text::chars_of(host);
    let colons: usize = text::count_char(chars.as_slice(), ':');
    colons == 1 || colons == 8
}

/// The destination of a command line: a username that is given by itself replaces
/// the one in the destination, and a port that is given by itself counts unless the
/// destination names one.
pub open spec fn requested_destination(
    arg: Seq<char>,
    username: Option<Seq<char>>,
    port: u16,
    local_user: Seq<char>,
) -> Result<DestinationView, HostErrorView> {
    match host::destination(arg, username, port, local_user) {
        Ok(d) => Ok(
            DestinationView {
                user: match username {
                    Some(user) if user.len() > 0 => user,
                    _ => d.user,
                },
                et_port: if names_port(arg) {
                    d.et_port
                } else {
                    port
                },
                ..d
            },
        ),
        Err(e) => Err(e),
    }
}

/// Works out the destination of a command line.
pub fn resolve_destination(host_arg: &str, username: Option<&str>, port: u16, local_user: &str) -> (r:
    Result<Destination, HostError>)
    ensures
        ({
            let user = match username {
                Some(u) => Some(u@),
                None => None,
            };
            match r {
                Ok(d) => requested_destination(host_arg@, user, port, local_user@) == Ok::<
                    DestinationView,
                    HostErrorView,
                >(d@),
                Err(e) => requested_destination(host_arg@, user, port, local_user@) == Err::<
                    DestinationView,
                    HostErrorView,
                >(e@),
            }
        }),
{
    match host::parse_destination(host_arg, username, port, local_user) {
        Ok(d) => {
            let mut dest = d;
            match username {
                Some(user) => {
                    if user.unicode_len() > 0 {
                        dest.user = user.to_owned();
                    }
                },
                None => {},
            }
            if !cli_host_has_explicit_port(host_arg) {
                dest.et_port = port;
            }
            Ok(dest)
        },
        Err(e) => Err(e),
    }
}

/// The name of a jump host, without the user and without the ssh port.
pub open spec fn jump_host(jump: Seq<char>) -> Seq<char> {
    let h = host::host_part(jump);
    match h.index_of_last(':') {
        Some(i) if text::occurrences(h, ':') == 1 && text::parsed_u16(h.skip(i + 1)) is Some => {
            h.take(i)
        },
        _ => h,
    }
}

/// The name of a jump host, without the user and without the ssh port.
pub fn jump_hostname(jump: &str) -> (r: String)
    ensures
        r@ == jump_host(jump@),
{
    let chars: Vec<char> = text::chars_of(jump);
    let len: usize = chars.len();
    let start: usize = match text::find_char(chars.as_slice(), '@') {
        Some(i) => i + 1,
        None => 0,
    };
    let h: &[char] = vstd::slice::slice_subrange(chars.as_slice(), start, len);
    assert(h@ =~= host::host_part(jump@));
    if text::count_char(h, ':') == 1 {
        match text::find_last_char(h, ':') {
            Some(i) => {
                let suffix: &[char] = vstd::slice::slice_subrange(h, i + 1, h.len());
                assert(suffix@ =~= h@.skip(i + 1));
                if text::parse_u16(suffix).is_some() {
                    let name: String = text::substring(h, 0, i);
                    assert(name@ =~= h@.take(i as int));
                    return name;
                }
            },
            None => {},
        }
    }
    text::string_of(h)
}

/// Which etserver to connect to.
#[derive(Debug, Clone)]
pub struct ConnectTarget {
    pub host: String,
    pub port: u16,
    /// Whether that server is a jump host, which passes the session on.
    pub jumphost: bool,
}

/// The server to connect to: the jump host where there is one, else the
/// destination.
pub fn connect_target(dest: &Destination, jumphost: Option<&str>, jport: u16) -> (r: ConnectTarget)
    ensures
        match jumphost {
            Some(jump) => r.host@ == jump_host(jump@) && r.port == jport && r.jumphost,
            None => r.host@ == dest.host@ && r.port == dest.et_port && !r.jumphost,
        },
{
    match jumphost {
        Some(jump) => ConnectTarget { host: jump_hostname(jump), port: jport, jumphost: true },
        None => ConnectTarget { host: dest.host.clone(), port: dest.et_port, jumphost: false },
    }
}

/// Where etterminal is on the server: where the command line says, else where it
/// is on macOS, if the server is said to run that. `None` leaves it to the server.
pub fn etterminal_path(terminal_path: Option<String>, macserver: bool) -> (r: Option<String>)
    ensures
        match terminal_path {
            Some(path) => r matches Some(p) && p@ == path@,
            None => if macserver {
                r matches Some(p) && p@ == "/usr/local/bin/etterminal"@
            } else {
                r is None
            },
        },
{
    if macserver && terminal_path.is_none() {
        Some("/usr/local/bin/etterminal".to_owned())
    } else {
        terminal_path
    }
}

/// Whether to try once more after so many failed attempts to connect.
pub fn tries_again(failed_attempts: u32) -> (r: bool)
    ensures
        r == (failed_attempts < CONNECT_ATTEMPTS),
        r == (failed_attempts < 3),
{
    failed_attempts < CONNECT_ATTEMPTS
}

/// The name of the lowest level that is logged.
pub fn log_level(verbose: u8) -> (r: &'static str)
    ensures
        r@ == (match verbose {
            0u8 => "warn"@,
            1u8 => "info"@,
            2u8 => "debug"@,
            _ => "trace"@,
        }),
{
    match verbose {
        0 => "warn",
        1 => "info",
        2 => "debug",
        _ => "trace",
    }
}

/// A username that is given by itself is the one that counts.
pub proof fn given_username_counts(
    arg: Seq<char>,
    username: Seq<char>,
    port: u16,
    local_user: Seq<char>,
)
    requires
        username.len() > 0,
    ensures
        requested_destination(arg, Some(username), port, local_user) matches Ok(d) ==> d.user
            == username,
{
}

/// A port in the destination is the one that counts, unless a colon stands in the
/// user's name too; without a port there, the one that is given by itself counts.
pub proof fn named_port_counts(
    arg: Seq<char>,
    username: Option<Seq<char>>,
    port: u16,
    local_user: Seq<char>,
)
    requires
        host::user_part(arg) matches Some(user) ==> !user.contains(':'),
    ensures
        match host::host_and_port(host::host_part(arg)) {
            Ok((_, named)) => requested_destination(arg, username, port, local_user) matches Ok(d)
                && d.et_port == (match named {
                Some(named) => named,
                None => port,
            }),
            Err(e) => requested_destination(arg, username, port, local_user) == Err::<
                DestinationView,
                HostErrorView,
            >(e),
        },
{
    arg.index_of_first_ensures('@');
    match arg.index_of_first('@') {
        Some(i) => {
            let user = arg.take(i);
            let rest = arg.skip(i + 1);
            assert(arg =~= user + seq!['@'] + rest);
            text::lemma_occurs_somewhere(user, ':');
            assert(text::occurrences(seq!['@'], ':') == 0) by {
                text::lemma_occurs_somewhere(seq!['@'], ':');
            }
            text::lemma_occurrences_add(user, seq!['@'], ':');
            text::lemma_occurrences_add(user + seq!['@'], rest, ':');
        },
        None => {},
    }
}

/// The command line decides on the user and the port, not on the host: that is the host of
/// the destination. Without a username, the user is that of the destination too. The port is
/// that of the destination where it has as many colons as one with a port.
pub proof fn the_destination_names_the_host(
    arg: Seq<char>,
    username: Option<Seq<char>>,
    port: u16,
    local_user: Seq<char>,
)
    ensures
        match host::destination(arg, username, port, local_user) {
            Ok(d) => requested_destination(arg, username, port, local_user) matches Ok(r) && r.host
                == d.host && r.host_alias == d.host_alias && (username is None ==> r.user == d.user)
                && (username matches Some(u) ==> r.user == (if u.len() > 0 {
                u
            } else {
                d.user
            })) && r.et_port == (if text::occurrences(arg, ':') == 1 || text::occurrences(arg, ':')
                == 8 {
                d.et_port
            } else {
                port
            }),
            Err(e) => requested_destination(arg, username, port, local_user) == Err::<
                DestinationView,
                HostErrorView,
            >(e),
        },
{
}

/// The name of a jump host is what stands between its user and its port. What is no port
/// belongs to the name, and so do all colons where there are several.
pub proof fn names_of_jump_hosts(user: Option<Seq<char>>, name: Seq<char>, port: Seq<char>)
    requires
        user matches Some(u) ==> !u.contains('@'),
        user is None ==> !name.contains('@') && !port.contains('@'),
    ensures
        text::occurrences(name, ':') != 1 ==> jump_host(host::addressed(user, name)) == name,
        !name.contains(':') && !port.contains(':') ==> jump_host(
            host::addressed(user, name + seq![':'] + port),
        ) == (if text::parsed_u16(port) is Some {
            name
        } else {
            name + seq![':'] + port
        }),
{
    host::lemma_addressed(user, name);
    let rest = name + seq![':'] + port;
    if user is None {
        assert(!rest.contains('@')) by {
            if rest.contains('@') {
                let i = choose|i: int| 0 <= i < rest.len() && rest[i] == '@';
                if i < name.len() {
                    assert(name[i] == '@');
                } else if i > name.len() {
                    assert(port[i - name.len() - 1] == '@');
                }
            }
        }
    }
    host::lemma_addressed(user, rest);
    if !name.contains(':') && !port.contains(':') {
        text::lemma_occurs_somewhere(name, ':');
        text::lemma_occurs_somewhere(port, ':');
        assert(text::occurrences(seq![':'], ':') == 1) by {
            reveal_with_fuel(text::occurrences, 2);
            assert(seq![':'].drop_last() =~= Seq::empty());
        }
        text::lemma_occurrences_add(name, seq![':'], ':');
        text::lemma_occurrences_add(name + seq![':'], port, ':');
        rest.index_of_last_ensures(':');
        assert(rest[name.len() as int] == ':');
        let i = rest.index_of_last(':')->Some_0;
        assert(i == name.len()) by {
            assert forall|j: int| name.len() < j < rest.len() implies rest[j] != ':' by {
                assert(rest[j] == port[j - name.len() - 1]);
            }
        }
        assert(rest.skip(i + 1) =~= port);
        assert(rest.take(i) =~= name);
    }
}

/// The defaults of the command line: the port, and how often and after how many milliseconds
/// the first connection is tried again.
pub proof fn defaults_of_the_command_line()
    ensures
        DEFAULT_PORT == 2022,
        CONNECT_ATTEMPTS == 3,
        CONNECT_PAUSE_MS == 1000,
{
}

} // verus!
