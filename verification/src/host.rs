//! Destinations of the form `[user@]host[:port]`.

use vstd::prelude::*;

use crate::text;

verus! {

/// Where to connect to, and as whom.
#[derive(Debug, Clone)]
pub struct Destination {
    pub user: String,
    pub host: String,
    /// The host as ssh is told it, which may be an alias of its configuration.
    pub host_alias: String,
    pub et_port: u16,
}

#[verifier::ext_equal]
pub struct DestinationView {
    pub user: Seq<char>,
    pub host: Seq<char>,
    pub host_alias: Seq<char>,
    pub et_port: u16,
}

impl View for Destination {
    type V = DestinationView;

    open spec fn view(&self) -> DestinationView {
        DestinationView {
            user: self.user@,
            host: self.host@,
            host_alias: self.host_alias@,
            et_port: self.et_port,
        }
    }
}

/// Why a destination could not be read.
#[derive(Debug, Clone)]
pub enum HostError {
    /// What follows the last colon is not a port number.
    InvalidPort,
    /// The host has more colons than a name with a port, and is not an IPv6
    /// address. Holds the host.
    InvalidHost(String),
}

pub enum HostErrorView {
    InvalidPort,
    InvalidHost(Seq<char>),
}

impl View for HostError {
    type V = HostErrorView;

    open spec fn view(&self) -> HostErrorView {
        match self {
            HostError::InvalidPort => HostErrorView::InvalidPort,
            HostError::InvalidHost(host) => HostErrorView::InvalidHost(host@),
        }
    }
}

/// What stands before the first `@`.
pub open spec fn user_part(arg: Seq<char>) -> Option<Seq<char>> {
    match arg.index_of_first('@') {
        Some(i) => Some(arg.take(i)),
        None => None,
    }
}

/// What stands behind the first `@`, or all of it.
pub open spec fn host_part(arg: Seq<char>) -> Seq<char> {
    match arg.index_of_first('@') {
        Some(i) => arg.skip(i + 1),
        None => arg,
    }
}

/// Whether `host` is an IPv6 address that has been shortened.
pub open spec fn is_abbreviated(host: Seq<char>) -> bool {
    text::occurs(host, seq![':', ':'])
}

/// Whether the last colon of `host` is followed by a port: a name or an IPv4
/// address has one colon then, and an IPv6 address in full has eight.
pub open spec fn has_port(host: Seq<char>) -> bool {
    let colons = text::occurrences(host, ':');
    colons == 1 || colons == 8 && !is_abbreviated(host)
}

/// A host without its port, and the port.
pub open spec fn host_and_port(host: Seq<char>) -> Result<(Seq<char>, Option<u16>), HostErrorView> {
    let colons = text::occurrences(host, ':');
    if has_port(host) {
        let i = host.index_of_last(':')->Some_0;
        match text::parsed_u16(host.skip(i + 1)) {
            Some(port) => Ok((host.take(i), Some(port))),
            None => Err(HostErrorView::InvalidPort),
        }
    } else if colons == 0 || colons == 7 || is_abbreviated(host) {
        Ok((host, None))
    } else {
        Err(HostErrorView::InvalidHost(host))
    }
}

/// The user of a destination: the one before the `@`, else the default, else the
/// local one. An empty name is none.
pub open spec fn user_of(arg: Seq<char>, default_user: Option<Seq<char>>, local_user: Seq<char>) -> Seq<
    char,
> {
    let named = match user_part(arg) {
        Some(user) => user,
        None => match default_user {
            Some(user) => user,
            None => Seq::empty(),
        },
    };
    if named.len() == 0 {
        local_user
    } else {
        named
    }
}

/// The destination that `arg` stands for.
pub open spec fn destination(
    arg: Seq<char>,
    default_user: Option<Seq<char>>,
    default_port: u16,
    local_user: Seq<char>,
) -> Result<DestinationView, HostErrorView> {
    match host_and_port(host_part(arg)) {
        Ok((host, port)) => Ok(
            DestinationView {
                user: user_of(arg, default_user, local_user),
                host,
                host_alias: host,
                et_port: match port {
                    Some(port) => port,
                    None => default_port,
                },
            },
        ),
        Err(e) => Err(e),
    }
}

fn split_port(host: &[char]) -> (r: Result<(String, Option<u16>), HostError>)
    ensures
        match r {
            Ok((h, p)) => host_and_port(host@) == Ok::<
                (Seq<char>, Option<u16>),
                HostErrorView,
            >((h@, p)),
            Err(e) => host_and_port(host@) == Err::<(Seq<char>, Option<u16>), HostErrorView>(e@),
        },
{
    let len: usize = host.len();
    let colons: usize = text::count_char(host, ':');
    let double: [char; 2] = [':', ':'];
    assert(double@ =~= seq![':', ':']);
    let abbreviated: bool = text::find_text(host, double.as_slice()).is_some();
    if colons == 1 || colons == 8 && !abbreviated {
        proof {
            text::lemma_occurs_somewhere(host@, ':');
            host@.index_of_last_ensures(':');
        }
        return match text::find_last_char(host, ':') {
            Some(i) => {
                let suffix: &[char] = vstd::slice::slice_subrange(host, i + 1, len);
                assert(suffix@ =~= host@.skip(i + 1));
                match text::parse_u16(suffix) {
                    Some(port) => {
                        let name: String = text::substring(host, 0, i);
                        assert(name@ =~= host@.take(i as int));
                        Ok((name, Some(port)))
                    },
                    None => Err(HostError::InvalidPort),
                }
            },
            None => Err(HostError::InvalidPort),
        };
    }
    if colons == 0 || colons == 7 || abbreviated {
        Ok((text::string_of(host), None))
    } else {
        Err(HostError::InvalidHost(text::string_of(host)))
    }
}

/// Reads `[user@]host[:port]`.
///
/// A shortened IPv6 address cannot have a port behind it. One in full has seven
/// colons, or eight where the last one is followed by a port.
pub fn parse_destination(
    host_arg: &str,
    default_user: Option<&str>,
    default_port: u16,
    local_user: &str,
) -> (r: Result<Destination, HostError>)
    ensures
        ({
            let user = match default_user {
                Some(u) => Some(u@),
                None => None,
            };
            match r {
                Ok(d) => destination(host_arg@, user, default_port, local_user@) == Ok::<
                    DestinationView,
                    HostErrorView,
                >(d@),
                Err(e) => destination(host_arg@, user, default_port, local_user@) == Err::<
                    DestinationView,
                    HostErrorView,
                >(e@),
            }
        }),
{
    let arg: Vec<char> = text::chars_of(host_arg);
    let len: usize = arg.len();
    let mut user: String = match default_user {
        Some(u) => u.to_owned(),
        None => String::new(),
    };
    let mut start: usize = 0;
    match text::find_char(arg.as_slice(), '@') {
        Some(i) => {
            user = text::substring(arg.as_slice(), 0, i);
            start = i + 1;
        },
        None => {},
    }
    let host: &[char] = vstd::slice::slice_subrange(arg.as_slice(), start, len);
    assert(host@ =~= host_part(host_arg@));
    match split_port(host) {
        Ok((name, port)) => {
            if user.as_str().unicode_len() == 0 {
                user = local_user.to_owned();
            }
            let et_port: u16 = match port {
                Some(p) => p,
                None => default_port,
            };
            let host_alias: String = name.clone();
            let d = Destination { user, host: name, host_alias, et_port };
            assert(d@.user =~= user_of(
                host_arg@,
                match default_user {
                    Some(u) => Some(u@),
                    None => None,
                },
                local_user@,
            ));
            Ok(d)
        },
        Err(e) => Err(e),
    }
}

/// The name of the local user: the environment's `USERNAME`, else its `USER`, else
/// `user`.
pub fn local_username(username: Option<String>, user: Option<String>) -> (r: String)
    ensures
        r@ == (match (username, user) {
            (Some(name), _) => name@,
            (None, Some(name)) => name@,
            (None, None) => "user"@,
        }),
{
    match username {
        Some(name) => name,
        None => match user {
            Some(name) => name,
            None => "user".to_owned(),
        },
    }
}

/// The kind of the local terminal: the environment's `TERM`, else
/// `xterm-256color`.
pub fn client_term(term: Option<String>) -> (r: String)
    ensures
        r@ == (match term {
            Some(t) => t@,
            None => "xterm-256color"@,
        }),
{
    match term {
        Some(t) => t,
        None => "xterm-256color".to_owned(),
    }
}

/// A user, a host and a port in the form of a destination.
pub open spec fn written(user: Seq<char>, host: Seq<char>, port: u16) -> Seq<char> {
    user + seq!['@'] + (host + seq![':'] + text::decimal(port as nat))
}

/// A destination reads back as it is written, be its host a name, an IPv4 address or
/// an IPv6 address in full.
pub proof fn written_destination_reads_back(
    user: Seq<char>,
    host: Seq<char>,
    port: u16,
    default_user: Option<Seq<char>>,
    default_port: u16,
    local_user: Seq<char>,
)
    requires
        user.len() > 0,
        !user.contains('@'),
        text::occurrences(host, ':') == 0 || text::occurrences(host, ':') == 7 && !is_abbreviated(
            host + seq![':'] + text::decimal(port as nat),
        ),
    ensures
        destination(written(user, host, port), default_user, default_port, local_user) == Ok::<
            DestinationView,
            HostErrorView,
        >(DestinationView { user, host, host_alias: host, et_port: port }),
{
    let digits = text::decimal(port as nat);
    let rest = host + seq![':'] + digits;
    let arg = written(user, host, port);
    text::decimal_round_trip(port as nat);
    lemma_splits_at(user, '@', rest);
    assert(arg.skip(user.len() as int + 1) =~= rest);
    assert(arg.take(user.len() as int) =~= user);
    assert(text::occurrences(digits, ':') == 0) by {
        text::lemma_occurs_somewhere(digits, ':');
    }
    assert(text::occurrences(seq![':'], ':') == 1) by {
        reveal_with_fuel(text::occurrences, 2);
        assert(seq![':'].drop_last() =~= Seq::empty());
    }
    text::lemma_occurrences_add(host, seq![':'], ':');
    text::lemma_occurrences_add(host + seq![':'], digits, ':');
    rest.index_of_last_ensures(':');
    assert(rest[host.len() as int] == ':');
    let i = rest.index_of_last(':')->Some_0;
    assert(i == host.len()) by {
        assert forall|j: int| host.len() < j < rest.len() implies rest[j] != ':' by {
            assert(rest[j] == digits[j - host.len() - 1]);
        }
    }
    assert(rest.skip(i + 1) =~= digits);
    assert(rest.take(i) =~= host);
}

pub(crate) proof fn lemma_splits_at(before: Seq<char>, c: char, after: Seq<char>)
    requires
        !before.contains(c),
    ensures
        (before + seq![c] + after).index_of_first(c) == Some(before.len() as int),
{
    let all = before + seq![c] + after;
    all.index_of_first_ensures(c);
    assert(all[before.len() as int] == c);
    assert forall|j: int| 0 <= j < before.len() implies all[j] != c by {
        assert(all[j] == before[j]);
    }
}

/// Whether two colons stand side by side.
pub open spec fn has_double_colon(s: Seq<char>) -> bool {
    exists|i: int| 0 <= i < s.len() - 1 && #[trigger] s[i] == ':' && s[i + 1] == ':'
}

proof fn lemma_abbreviated(host: Seq<char>)
    ensures
        is_abbreviated(host) <==> has_double_colon(host),
        has_double_colon(host) ==> text::occurrences(host, ':') >= 2,
{
    let double = seq![':', ':'];
    text::first_occurrences(host, double);
    if is_abbreviated(host) {
        let i = text::first_occurrence(host, double, 0)->Some_0;
        assert(host.subrange(i, i + 2)[0] == host[i]);
        assert(host.subrange(i, i + 2)[1] == host[i + 1]);
        assert(host[i] == ':' && host[i + 1] == ':');
    }
    if has_double_colon(host) {
        let i = choose|i: int|
            0 <= i < host.len() - 1 && #[trigger] host[i] == ':' && host[i + 1] == ':';
        assert(host.subrange(i, i + 2) =~= double);
        assert(host =~= host.take(i) + (double + host.skip(i + 2)));
        text::lemma_occurrences_add(host.take(i), double + host.skip(i + 2), ':');
        text::lemma_occurrences_add(double, host.skip(i + 2), ':');
        reveal_with_fuel(text::occurrences, 3);
        assert(double.drop_last() =~= seq![':']);
        assert(seq![':'].drop_last() =~= Seq::empty());
    }
}

/// A destination for a user, if there is one, and what follows.
pub open spec fn addressed(user: Option<Seq<char>>, rest: Seq<char>) -> Seq<char> {
    match user {
        Some(u) => u + seq!['@'] + rest,
        None => rest,
    }
}

/// Whether `chosen` is the user of a destination: the one that it names, else the default,
/// else the local one; an empty name is none.
pub open spec fn is_user(
    chosen: Seq<char>,
    user: Option<Seq<char>>,
    default_user: Option<Seq<char>>,
    local_user: Seq<char>,
) -> bool {
    match (user, default_user) {
        (Some(u), _) if u.len() > 0 => chosen == u,
        (None, Some(d)) if d.len() > 0 => chosen == d,
        _ => chosen == local_user,
    }
}

pub(crate) proof fn lemma_addressed(user: Option<Seq<char>>, rest: Seq<char>)
    requires
        user matches Some(u) ==> !u.contains('@'),
        user is None ==> !rest.contains('@'),
    ensures
        host_part(addressed(user, rest)) == rest,
        user_part(addressed(user, rest)) == user,
{
    let arg = addressed(user, rest);
    match user {
        Some(u) => {
            lemma_splits_at(u, '@', rest);
            assert(arg.skip(u.len() as int + 1) =~= rest);
            assert(arg.take(u.len() as int) =~= u);
        },
        None => {
            arg.index_of_first_ensures('@');
        },
    }
}

/// A destination without a port is just its host: any name, and any IPv6 address, in full
/// or with two colons side by side. The port is the default.
pub proof fn destinations_without_a_port(
    user: Option<Seq<char>>,
    host: Seq<char>,
    default_user: Option<Seq<char>>,
    default_port: u16,
    local_user: Seq<char>,
)
    requires
        user matches Some(u) ==> !u.contains('@'),
        user is None ==> !host.contains('@'),
        !host.contains(':') || text::occurrences(host, ':') == 7 || has_double_colon(host),
    ensures
        destination(addressed(user, host), default_user, default_port, local_user) matches Ok(d)
            && d.host == host && d.host_alias == host && d.et_port == default_port && is_user(
            d.user,
            user,
            default_user,
            local_user,
        ),
{
    lemma_addressed(user, host);
    lemma_abbreviated(host);
    text::lemma_occurs_somewhere(host, ':');
}

/// A destination with a port is its host, a colon and the port, where the host is any name
/// or an IPv6 address in full. What is no port is refused.
pub proof fn destinations_with_a_port(
    user: Option<Seq<char>>,
    host: Seq<char>,
    port: Seq<char>,
    default_user: Option<Seq<char>>,
    default_port: u16,
    local_user: Seq<char>,
)
    requires
        user matches Some(u) ==> !u.contains('@'),
        user is None ==> !host.contains('@') && !port.contains('@'),
        !port.contains(':'),
        !host.contains(':') || text::occurrences(host, ':') == 7 && !has_double_colon(
            host + seq![':'] + port,
        ),
    ensures
        ({
            let arg = addressed(user, host + seq![':'] + port);
            match text::parsed_u16(port) {
                Some(n) => destination(arg, default_user, default_port, local_user) matches Ok(d)
                    && d.host == host && d.host_alias == host && d.et_port == n && is_user(
                    d.user,
                    user,
                    default_user,
                    local_user,
                ),
                None => destination(arg, default_user, default_port, local_user) == Err::<
                    DestinationView,
                    HostErrorView,
                >(HostErrorView::InvalidPort),
            }
        }),
{
    let rest = host + seq![':'] + port;
    if user is None {
        assert(!rest.contains('@')) by {
            if rest.contains('@') {
                let i = choose|i: int| 0 <= i < rest.len() && rest[i] == '@';
                if i < host.len() {
                    assert(host[i] == '@');
                } else if i > host.len() {
                    assert(port[i - host.len() - 1] == '@');
                }
            }
        }
    }
    lemma_addressed(user, rest);
    lemma_abbreviated(rest);
    text::lemma_occurs_somewhere(host, ':');
    text::lemma_occurs_somewhere(port, ':');
    assert(text::occurrences(seq![':'], ':') == 1) by {
        reveal_with_fuel(text::occurrences, 2);
        assert(seq![':'].drop_last() =~= Seq::empty());
    }
    text::lemma_occurrences_add(host, seq![':'], ':');
    text::lemma_occurrences_add(host + seq![':'], port, ':');
    rest.index_of_last_ensures(':');
    assert(rest[host.len() as int] == ':');
    let i = rest.index_of_last(':')->Some_0;
    assert(i == host.len()) by {
        assert forall|j: int| host.len() < j < rest.len() implies rest[j] != ':' by {
            assert(rest[j] == port[j - host.len() - 1]);
        }
    }
    assert(rest.skip(i + 1) =~= port);
    assert(rest.take(i) =~= host);
}

/// A host with more colons than a name and a port, that can be no IPv6 address, is refused.
pub proof fn hosts_with_too_many_colons(
    user: Option<Seq<char>>,
    host: Seq<char>,
    default_user: Option<Seq<char>>,
    default_port: u16,
    local_user: Seq<char>,
)
    requires
        user matches Some(u) ==> !u.contains('@'),
        user is None ==> !host.contains('@'),
        !has_double_colon(host),
        2 <= text::occurrences(host, ':') <= 6 || text::occurrences(host, ':') > 8,
    ensures
        destination(addressed(user, host), default_user, default_port, local_user) == Err::<
            DestinationView,
            HostErrorView,
        >(HostErrorView::InvalidHost(host)),
{
    lemma_addressed(user, host);
    lemma_abbreviated(host);
}

} // verus!
