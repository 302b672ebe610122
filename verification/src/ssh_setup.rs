//! Starting `etterminal` on the remote host through ssh, and reading the id and the
//! passkey of the session from what it prints.

use rand::RngExt;
use vstd::prelude::*;
use vstd::utf8::*;

use crate::text;

verus! {

/// The number of characters of a session id.
pub const ID_LEN: usize = 16;

/// The number of characters of a passkey.
pub const PASSKEY_LEN: usize = 32;

/// How many letters and digits there are to choose from.
pub const ALPHABET_LEN: usize = 62;

/// The id of a session and the key of its cipher.
#[derive(Debug, Clone)]
pub struct SessionKeys {
    pub id: String,
    pub passkey: String,
}

/// What the ssh command depends on.
#[derive(Debug, Clone)]
pub struct SshSetupOptions {
    pub user: String,
    pub host_alias: String,
    pub kill_other_sessions: bool,
    pub verbose: u8,
    pub etterminal_path: Option<String>,
    pub server_fifo: Option<String>,
    pub ssh_options: Vec<String>,
    pub jumphost: Option<String>,
}

/// Why no session was set up.
#[derive(Debug, Clone)]
pub enum SetupError {
    /// The server printed nothing.
    NoOutput,
    /// The server did not print the marker. Holds what it printed.
    NoMarker(String),
    /// What follows the marker is too short.
    Truncated,
    /// There is no passkey behind the id.
    MissingPasskey,
    /// The id or the passkey is empty.
    EmptyKeys,
}

pub enum SetupErrorView {
    NoOutput,
    NoMarker(Seq<char>),
    Truncated,
    MissingPasskey,
    EmptyKeys,
}

impl View for SetupError {
    type V = SetupErrorView;

    open spec fn view(&self) -> SetupErrorView {
        match self {
            SetupError::NoOutput => SetupErrorView::NoOutput,
            SetupError::NoMarker(output) => SetupErrorView::NoMarker(output@),
            SetupError::Truncated => SetupErrorView::Truncated,
            SetupError::MissingPasskey => SetupErrorView::MissingPasskey,
            SetupError::EmptyKeys => SetupErrorView::EmptyKeys,
        }
    }
}

/// Letter or digit `i` of the alphabet: the digits, the capital letters, and the
/// small letters.
pub open spec fn alphabet(i: int) -> char {
    if i < 10 {
        (48 + i) as char
    } else if i < 36 {
        (55 + i) as char
    } else {
        (61 + i) as char
    }
}

/// Whether `s` consists of letters and digits.
pub open spec fn all_alphanumeric(s: Seq<char>) -> bool {
    forall|i: int| 0 <= i < s.len() ==> text::is_ascii_alphanumeric(#[trigger] s[i])
}

/// A random number below `n`.
///
/// Calls `RngExt::random_range` of `rand` on the generator of the thread. The claim
/// is that the number lies in the range; which one it is, chance decides.
#[verifier::external_body]
fn random_index(n: usize) -> (r: usize)
    requires
        n > 0,
    ensures
        r < n,
{
    rand::rng().random_range(0..n)
}

/// Letter or digit `i` of the alphabet.
pub fn alphabet_char(i: usize) -> (r: char)
    requires
        i < ALPHABET_LEN,
    ensures
        r == alphabet(i as int),
        r as u32 == (if i < 10 {
            '0' as u32 + i
        } else if i < 36 {
            'A' as u32 + i - 10
        } else {
            'a' as u32 + i - 36
        }),
        text::is_ascii_alphanumeric(r),
{
    let b: u8 = i as u8;
    let code: u8 = if b < 10 {
        48 + b
    } else if b < 36 {
        55 + b
    } else {
        61 + b
    };
    code as char
}

/// As many random letters and digits.
pub fn gen_random_alphanum(len: usize) -> (r: String)
    ensures
        r@.len() == len,
        all_alphanumeric(r@),
        forall|i: int| 0 <= i < len ==> text::is_ascii_alphanumeric(#[trigger] r@[i]),
{
    let mut r: String = String::new();
    let mut i: usize = 0;
    while i < len
        invariant
            i <= len,
            r@.len() == i,
            all_alphanumeric(r@),
        decreases len - i,
    {
        r.push(alphabet_char(random_index(ALPHABET_LEN)));
        i = i + 1;
    }
    r
}

/// An id that asks the server to choose a new one: it starts with three times `X`.
pub fn mark_for_renewal(id: &str) -> (r: String)
    ensures
        r@.len() == id@.len(),
        forall|i: int|
            0 <= i < id@.len() ==> #[trigger] r@[i] == (if i < 3 {
                'X'
            } else {
                id@[i]
            }),
{
    let chars: Vec<char> = text::chars_of(id);
    let mut r: String = String::new();
    let mut i: usize = 0;
    while i < chars.len()
        invariant
            chars@ == id@,
            i <= chars@.len(),
            r@.len() == i,
            forall|j: int|
                0 <= j < i ==> #[trigger] r@[j] == (if j < 3 {
                    'X'
                } else {
                    id@[j]
                }),
        decreases chars@.len() - i,
    {
        if i < 3 {
            r.push('X');
        } else {
            r.push(chars[i]);
        }
        i = i + 1;
    }
    r
}

/// The command that runs on the remote host.
pub open spec fn remote_command(
    opts: SshSetupOptions,
    id: Seq<char>,
    passkey: Seq<char>,
    term: Seq<char>,
) -> Seq<char> {
    let kill = if opts.kill_other_sessions {
        "pkill etterminal -u "@ + opts.user@ + "; sleep 0.5; "@
    } else {
        Seq::empty()
    };
    let etterminal = match opts.etterminal_path {
        Some(path) => path@,
        None => "etterminal"@,
    };
    let fifo = match opts.server_fifo {
        Some(fifo) => " --serverfifo="@ + fifo@,
        None => Seq::empty(),
    };
    kill + "echo '"@ + id + "/"@ + passkey + "_"@ + term + "' | "@ + etterminal + " --verbose="@
        + text::decimal(opts.verbose as nat) + fifo
}

/// The destination as ssh is told it.
pub open spec fn ssh_destination(opts: SshSetupOptions) -> Seq<char> {
    if opts.user@.len() == 0 {
        opts.host_alias@
    } else {
        opts.user@ + "@"@ + opts.host_alias@
    }
}

/// The arguments of ssh: the jump host, the destination, the options, and the
/// command.
pub open spec fn ssh_arguments(
    opts: SshSetupOptions,
    id: Seq<char>,
    passkey: Seq<char>,
    term: Seq<char>,
) -> Seq<Seq<char>> {
    let jump = match opts.jumphost {
        Some(jump) => seq!["-J"@, jump@],
        None => Seq::empty(),
    };
    let options = Seq::new(opts.ssh_options@.len(), |i: int| "-o"@ + opts.ssh_options@[i]@);
    jump + seq![ssh_destination(opts)] + options + seq![remote_command(opts, id, passkey, term)]
}

/// The views of some strings.
pub open spec fn texts(s: Seq<String>) -> Seq<Seq<char>> {
    s.map_values(|t: String| t@)
}

fn build_remote_command(opts: &SshSetupOptions, id: &str, passkey: &str, term: &str) -> (r: String)
    ensures
        r@ == remote_command(*opts, id@, passkey@, term@),
{
    let mut r: String = String::new();
    if opts.kill_other_sessions {
        r.append("pkill etterminal -u ");
        r.append(opts.user.as_str());
        r.append("; sleep 0.5; ");
    }
    r.append("echo '");
    r.append(id);
    r.append("/");
    r.append(passkey);
    r.append("_");
    r.append(term);
    r.append("' | ");
    match &opts.etterminal_path {
        Some(path) => r.append(path.as_str()),
        None => r.append("etterminal"),
    }
    r.append(" --verbose=");
    let verbose: String = text::decimal_string(opts.verbose as u64);
    r.append(verbose.as_str());
    match &opts.server_fifo {
        Some(fifo) => {
            r.append(" --serverfifo=");
            r.append(fifo.as_str());
        },
        None => {},
    }
    assert(r@ =~= remote_command(*opts, id@, passkey@, term@));
    r
}

/// The arguments of the ssh command that starts a session with the given id and
/// passkey.
pub fn ssh_command(opts: &SshSetupOptions, id: &str, passkey: &str, term: &str) -> (r: Vec<String>)
    ensures
        texts(r@) == ssh_arguments(*opts, id@, passkey@, term@),
{
    let mut args: Vec<String> = Vec::new();
    match &opts.jumphost {
        Some(jump) => {
            args.push("-J".to_owned());
            args.push(jump.clone());
        },
        None => {},
    }
    let mut dest: String = String::new();
    if opts.user.as_str().unicode_len() > 0 {
        dest.append(opts.user.as_str());
        dest.append("@");
    }
    dest.append(opts.host_alias.as_str());
    assert(dest@ =~= ssh_destination(*opts));
    args.push(dest);
    let ghost front = texts(args@);
    let ghost options = Seq::new(opts.ssh_options@.len(), |i: int| "-o"@ + opts.ssh_options@[i]@);
    assert(front =~= (match opts.jumphost {
        Some(jump) => seq!["-J"@, jump@],
        None => Seq::empty(),
    }) + seq![ssh_destination(*opts)]);
    assert(front =~= front + options.take(0));
    let mut i: usize = 0;
    while i < opts.ssh_options.len()
        invariant
            i <= opts.ssh_options@.len(),
            options == Seq::new(
                opts.ssh_options@.len(),
                |i: int| "-o"@ + opts.ssh_options@[i]@,
            ),
            texts(args@) == front + options.take(i as int),
        decreases opts.ssh_options@.len() - i,
    {
        let mut option: String = "-o".to_owned();
        option.append(opts.ssh_options[i].as_str());
        assert(option@ == options[i as int]);
        let ghost before = args@;
        args.push(option);
        assert(texts(args@) =~= texts(before).push(option@));
        assert(texts(args@) =~= front + options.take(i + 1));
        i = i + 1;
    }
    let ghost before = args@;
    let command: String = build_remote_command(opts, id, passkey, term);
    args.push(command);
    assert(texts(args@) =~= texts(before).push(command@));
    assert(texts(args@) =~= ssh_arguments(*opts, id@, passkey@, term@));
    args
}

/// Whether `id` is one that asks the server to choose a new one, and `passkey` has
/// the form of a passkey.
pub open spec fn requested_keys(id: Seq<char>, passkey: Seq<char>) -> bool {
    &&& id.len() == ID_LEN
    &&& id.take(3) == seq!['X', 'X', 'X']
    &&& all_alphanumeric(id)
    &&& passkey.len() == PASSKEY_LEN
    &&& all_alphanumeric(passkey)
}

/// The arguments of the ssh command that starts a new session: with a random
/// passkey, and a random id that asks the server to choose both anew.
pub fn setup_ssh(opts: &SshSetupOptions, term: &str) -> (r: Vec<String>)
    ensures
        exists|id: Seq<char>, passkey: Seq<char>|
            #![trigger requested_keys(id, passkey)]
            requested_keys(id, passkey) && texts(r@) == ssh_arguments(*opts, id, passkey, term@)
                && id.len() == 16 && id[0] == 'X' && id[1] == 'X' && id[2] == 'X' && passkey.len()
                == 32 && (forall|i: int|
                0 <= i < 16 ==> text::is_ascii_alphanumeric(#[trigger] id[i])) && (forall|i: int|
                0 <= i < 32 ==> text::is_ascii_alphanumeric(#[trigger] passkey[i])),
{
    let random: String = gen_random_alphanum(ID_LEN);
    let id: String = mark_for_renewal(random.as_str());
    let passkey: String = gen_random_alphanum(PASSKEY_LEN);
    assert(id@.take(3) =~= seq!['X', 'X', 'X']);
    assert(requested_keys(id@, passkey@));
    ssh_command(opts, id.as_str(), passkey.as_str(), term)
}

/// The letters and digits in `s`.
pub open spec fn alphanumeric_only(s: Seq<char>) -> Seq<char>
    decreases s.len(),
{
    if s.len() == 0 {
        Seq::empty()
    } else {
        let before = alphanumeric_only(s.drop_last());
        if text::is_ascii_alphanumeric(s.last()) {
            before.push(s.last())
        } else {
            before
        }
    }
}

/// The first characters of `s`, at most `n`.
pub open spec fn at_most(s: Seq<char>, n: nat) -> Seq<char> {
    if s.len() <= n {
        s
    } else {
        s.take(n as int)
    }
}

/// The id and the passkey in what the server printed. They follow the marker
/// `IDPASSKEY:`, have 49 bytes together, and a slash between them. Of the passkey
/// count the first 32 letters and digits.
pub open spec fn keys_in(output: Seq<char>) -> Result<(Seq<char>, Seq<char>), SetupErrorView> {
    let marker = "IDPASSKEY:"@;
    match text::first_occurrence(output, marker, 0) {
        None => Err(SetupErrorView::NoMarker(output)),
        Some(i) => {
            let rest = output.skip(i + marker.len());
            match text::chars_in_bytes(rest, (ID_LEN + 1 + PASSKEY_LEN) as nat) {
                None => Err(SetupErrorView::Truncated),
                Some(k) => {
                    let both = rest.take(k as int);
                    match both.index_of_first('/') {
                        None => Err(SetupErrorView::MissingPasskey),
                        Some(j) => Ok(
                            (
                                both.take(j),
                                at_most(
                                    alphanumeric_only(both.skip(j + 1)),
                                    PASSKEY_LEN as nat,
                                ),
                            ),
                        ),
                    }
                },
            }
        },
    }
}

proof fn lemma_alphanumeric_prefix(s: Seq<char>, k: int)
    requires
        0 <= k <= s.len(),
    ensures
        alphanumeric_only(s.take(k)).len() <= alphanumeric_only(s).len(),
        alphanumeric_only(s).take(alphanumeric_only(s.take(k)).len() as int) == alphanumeric_only(
            s.take(k),
        ),
    decreases s.len() - k,
{
    if k == s.len() {
        assert(s.take(k) =~= s);
        assert(alphanumeric_only(s).take(alphanumeric_only(s).len() as int) =~= alphanumeric_only(
            s,
        ));
    } else {
        lemma_alphanumeric_prefix(s, k + 1);
        assert(s.take(k + 1).drop_last() =~= s.take(k));
        let all = alphanumeric_only(s);
        let longer = alphanumeric_only(s.take(k + 1));
        let shorter = alphanumeric_only(s.take(k));
        assert(all.take(longer.len() as int) == longer);
        assert(all.take(shorter.len() as int) =~= longer.take(shorter.len() as int));
        assert(longer.take(shorter.len() as int) =~= shorter);
    }
}

fn first_alphanumeric(chars: &[char]) -> (r: String)
    ensures
        r@ == at_most(alphanumeric_only(chars@), PASSKEY_LEN as nat),
{
    let mut r: String = String::new();
    let mut count: usize = 0;
    let mut i: usize = 0;
    while i < chars.len() && count < PASSKEY_LEN
        invariant
            i <= chars@.len(),
            count <= PASSKEY_LEN,
            r@.len() == count,
            r@ == alphanumeric_only(chars@.take(i as int)),
        decreases chars@.len() - i,
    {
        let c: char = chars[i];
        assert(chars@.take(i + 1).drop_last() =~= chars@.take(i as int));
        if text::ascii_alphanumeric(c) {
            r.push(c);
            count = count + 1;
        }
        i = i + 1;
    }
    proof {
        lemma_alphanumeric_prefix(chars@, i as int);
        if i == chars@.len() {
            assert(chars@.take(i as int) =~= chars@);
        }
        let all = alphanumeric_only(chars@);
        assert(all.take(all.len() as int) =~= all);
    }
    r
}

/// Reads the id and the passkey from what the server printed.
pub fn parse_idpasskey(ssh_buffer: &str) -> (r: Result<(String, String), SetupError>)
    ensures
        match r {
            Ok((id, passkey)) => keys_in(ssh_buffer@) == Ok::<
                (Seq<char>, Seq<char>),
                SetupErrorView,
            >((id@, passkey@)),
            Err(e) => keys_in(ssh_buffer@) == Err::<(Seq<char>, Seq<char>), SetupErrorView>(e@),
        },
{
    let chars: Vec<char> = text::chars_of(ssh_buffer);
    let marker: Vec<char> = text::chars_of("IDPASSKEY:");
    let idx: usize = match text::find_text(chars.as_slice(), marker.as_slice()) {
        Some(i) => i,
        None => {
            return Err(SetupError::NoMarker(ssh_buffer.to_owned()));
        },
    };
    assert(chars.len() <= usize::MAX);
    let start: usize = idx + marker.len();
    let count: usize = match text::chars_within(
        chars.as_slice(),
        start,
        ID_LEN + 1 + PASSKEY_LEN,
    ) {
        Some(k) => k,
        None => {
            return Err(SetupError::Truncated);
        },
    };
    let both: &[char] = vstd::slice::slice_subrange(chars.as_slice(), start, start + count);
    assert(both@ =~= chars@.skip(start as int).take(count as int));
    match text::find_char(both, '/') {
        None => Err(SetupError::MissingPasskey),
        Some(j) => {
            let id: String = text::substring(both, 0, j);
            let after: &[char] = vstd::slice::slice_subrange(both, j + 1, count);
            assert(id@ =~= both@.take(j as int));
            assert(after@ =~= both@.skip(j + 1));
            Ok((id, first_alphanumeric(after)))
        },
    }
}

/// Whether ssh has failed: it says so, and nothing came out. With some output the keys
/// may still be in it.
pub fn ssh_failed(success: bool, stdout: &str) -> (r: bool)
    ensures
        r == (!success && stdout@.len() == 0),
{
    !success && stdout.unicode_len() == 0
}

/// The keys of a session from what the server printed.
pub fn session_keys(output: &str) -> (r: Result<SessionKeys, SetupError>)
    ensures
        match r {
            Ok(keys) => !text::is_blank(output@) && keys_in(output@) == Ok::<
                (Seq<char>, Seq<char>),
                SetupErrorView,
            >((keys.id@, keys.passkey@)) && keys.id@.len() > 0 && keys.passkey@.len() > 0,
            Err(e) => if text::is_blank(output@) {
                e@ == SetupErrorView::NoOutput
            } else {
                match keys_in(output@) {
                    Ok((id, passkey)) => (id.len() == 0 || passkey.len() == 0) && e@
                        == SetupErrorView::EmptyKeys,
                    Err(why) => e@ == why,
                }
            },
        },
{
    let chars: Vec<char> = text::chars_of(output);
    if text::blank(chars.as_slice()) {
        return Err(SetupError::NoOutput);
    }
    match parse_idpasskey(output) {
        Ok((id, passkey)) => {
            if id.as_str().unicode_len() == 0 || passkey.as_str().unicode_len() == 0 {
                Err(SetupError::EmptyKeys)
            } else {
                Ok(SessionKeys { id, passkey })
            }
        },
        Err(e) => Err(e),
    }
}

impl SessionKeys {
    /// Whether the id and the passkey have the lengths that they should have. A
    /// session goes on with other lengths too, and fails at the cipher where the
    /// passkey cannot be its key.
    pub fn has_expected_lengths(&self) -> (r: bool)
        ensures
            r == (encode_utf8(self.id@).len() == ID_LEN && encode_utf8(self.passkey@).len()
                == PASSKEY_LEN),
            r == (encode_utf8(self.id@).len() == 16 && encode_utf8(self.passkey@).len() == 32),
    {
        self.id.as_str().as_bytes().len() == ID_LEN && self.passkey.as_str().as_bytes().len()
            == PASSKEY_LEN
    }
}

proof fn lemma_ascii_bytes(s: Seq<char>, n: nat)
    requires
        n <= s.len(),
        forall|i: int| 0 <= i < n ==> (#[trigger] s[i] as u32) < 0x80,
    ensures
        text::chars_in_bytes(s, n) == Some(n),
    decreases n,
{
    if n > 0 {
        assert((s[0] as u32) < 0x80);
        assert forall|i: int| 0 <= i < n - 1 implies (#[trigger] s.skip(1)[i] as u32) < 0x80 by {
            assert(s.skip(1)[i] == s[i + 1]);
        }
        lemma_ascii_bytes(s.skip(1), (n - 1) as nat);
    }
}

proof fn lemma_alphanumeric_whole(s: Seq<char>)
    requires
        all_alphanumeric(s),
    ensures
        alphanumeric_only(s) == s,
    decreases s.len(),
{
    if s.len() > 0 {
        let front = s.drop_last();
        assert forall|i: int| 0 <= i < front.len() implies text::is_ascii_alphanumeric(
            #[trigger] front[i],
        ) by {
            assert(front[i] == s[i]);
        }
        lemma_alphanumeric_whole(front);
        assert(front.push(s.last()) =~= s);
    } else {
        assert(s =~= Seq::empty());
    }
}

/// The id and the passkey that a server prints behind the first marker are read as
/// they are, whatever else it prints.
pub proof fn printed_keys_are_read(
    before: Seq<char>,
    id: Seq<char>,
    passkey: Seq<char>,
    after: Seq<char>,
)
    requires
        id.len() == ID_LEN,
        all_alphanumeric(id),
        passkey.len() == PASSKEY_LEN,
        all_alphanumeric(passkey),
        text::first_occurrence(
            before + "IDPASSKEY:"@ + id + seq!['/'] + passkey + after,
            "IDPASSKEY:"@,
            0,
        ) == Some(before.len() as int),
    ensures
        keys_in(before + "IDPASSKEY:"@ + id + seq!['/'] + passkey + after) == Ok::<
            (Seq<char>, Seq<char>),
            SetupErrorView,
        >((id, passkey)),
{
    let marker = "IDPASSKEY:"@;
    let output = before + marker + id + seq!['/'] + passkey + after;
    let rest = output.skip(before.len() as int + marker.len());
    let both = id + seq!['/'] + passkey;
    let n = (ID_LEN + 1 + PASSKEY_LEN) as nat;
    assert(rest =~= both + after);
    assert forall|i: int| 0 <= i < n implies (#[trigger] rest[i] as u32) < 0x80 by {
        assert(rest[i] == both[i]);
        if i < ID_LEN {
            assert(both[i] == id[i]);
        } else if i > ID_LEN {
            assert(both[i] == passkey[i - ID_LEN - 1]);
        }
    }
    lemma_ascii_bytes(rest, n);
    assert(rest.take(n as int) =~= both);
    both.index_of_first_ensures('/');
    assert(both[ID_LEN as int] == '/');
    let j = both.index_of_first('/')->Some_0;
    assert(j == ID_LEN) by {
        assert forall|i: int| 0 <= i < ID_LEN implies both[i] != '/' by {
            assert(both[i] == id[i]);
        }
    }
    assert(both.take(j) =~= id);
    assert(both.skip(j + 1) =~= passkey);
    lemma_alphanumeric_whole(passkey);
}

/// The alphabet holds each letter and each digit once.
pub proof fn letters_and_digits(i: int, j: int, c: char)
    requires
        0 <= i < j < 62,
    ensures
        ALPHABET_LEN == 62,
        alphabet(i) != alphabet(j),
        '0' <= c <= '9' ==> alphabet(c as u32 - 48) == c,
        'A' <= c <= 'Z' ==> alphabet(c as u32 - 55) == c,
        'a' <= c <= 'z' ==> alphabet(c as u32 - 61) == c,
{
}

/// The remote command pipes the id, the passkey and the terminal into etterminal. It is
/// told how much to log, where etterminal is, and which fifo to use, as far as the options
/// say so, and the other sessions of the user are ended before it.
pub proof fn the_remote_command(
    opts: SshSetupOptions,
    id: Seq<char>,
    passkey: Seq<char>,
    term: Seq<char>,
)
    ensures
        ({
            let piped = "echo '"@ + id + "/"@ + passkey + "_"@ + term + "' | "@;
            let plain = SshSetupOptions {
                kill_other_sessions: false,
                etterminal_path: None,
                server_fifo: None,
                ..opts
            };
            let here = SshSetupOptions { etterminal_path: opts.etterminal_path, ..plain };
            let alone = SshSetupOptions { kill_other_sessions: false, ..opts };
            &&& remote_command(plain, id, passkey, term) == piped + "etterminal"@ + " --verbose="@
                + text::decimal(opts.verbose as nat)
            &&& opts.etterminal_path matches Some(path) ==> remote_command(here, id, passkey, term)
                == piped + path@ + " --verbose="@ + text::decimal(opts.verbose as nat)
            &&& remote_command(alone, id, passkey, term) == remote_command(here, id, passkey, term)
                + (match opts.server_fifo {
                Some(fifo) => " --serverfifo="@ + fifo@,
                None => Seq::empty(),
            })
            &&& remote_command(opts, id, passkey, term) == (if opts.kill_other_sessions {
                "pkill etterminal -u "@ + opts.user@ + "; sleep 0.5; "@
            } else {
                Seq::empty()
            }) + remote_command(alone, id, passkey, term)
        }),
{
    let piped = "echo '"@ + id + "/"@ + passkey + "_"@ + term + "' | "@;
    let plain = SshSetupOptions {
        kill_other_sessions: false,
        etterminal_path: None,
        server_fifo: None,
        ..opts
    };
    let here = SshSetupOptions { etterminal_path: opts.etterminal_path, ..plain };
    let alone = SshSetupOptions { kill_other_sessions: false, ..opts };
    let kill = if opts.kill_other_sessions {
        "pkill etterminal -u "@ + opts.user@ + "; sleep 0.5; "@
    } else {
        Seq::empty()
    };
    let fifo = match opts.server_fifo {
        Some(fifo) => " --serverfifo="@ + fifo@,
        None => Seq::empty(),
    };
    assert(remote_command(plain, id, passkey, term) =~= piped + "etterminal"@ + " --verbose="@
        + text::decimal(opts.verbose as nat));
    if let Some(path) = opts.etterminal_path {
        assert(remote_command(here, id, passkey, term) =~= piped + path@ + " --verbose="@
            + text::decimal(opts.verbose as nat));
    }
    assert(remote_command(alone, id, passkey, term) =~= remote_command(here, id, passkey, term)
        + fifo);
    assert(remote_command(opts, id, passkey, term) =~= kill + remote_command(
        alone,
        id,
        passkey,
        term,
    ));
}

/// The arguments of ssh are `-J` and the jump host, if there is one; the destination, with
/// the user before it, if there is one; `-o` with each option, in order; and the command.
pub proof fn the_arguments_of_ssh(
    opts: SshSetupOptions,
    id: Seq<char>,
    passkey: Seq<char>,
    term: Seq<char>,
)
    ensures
        ({
            let args = ssh_arguments(opts, id, passkey, term);
            let options = opts.ssh_options@;
            let first: int = if opts.jumphost is Some {
                2
            } else {
                0
            };
            &&& args.len() == first + options.len() + 2
            &&& opts.jumphost matches Some(jump) ==> args[0] == "-J"@ && args[1] == jump@
            &&& opts.user@.len() == 0 ==> args[first] == opts.host_alias@
            &&& opts.user@.len() > 0 ==> args[first] == opts.user@ + "@"@ + opts.host_alias@
            &&& forall|i: int|
                0 <= i < options.len() ==> args[first + 1 + i] == "-o"@ + (#[trigger] options[i])@
            &&& args.last() == remote_command(opts, id, passkey, term)
        }),
{
}

proof fn lemma_alphanumeric_filter(s: Seq<char>)
    ensures
        alphanumeric_only(s) == s.filter(|c: char| text::is_ascii_alphanumeric(c)),
    decreases s.len(),
{
    reveal(Seq::filter);
    if s.len() > 0 {
        lemma_alphanumeric_filter(s.drop_last());
    } else {
        assert(s =~= Seq::empty());
    }
}

/// Of what follows the first marker, 49 bytes count. The id is what stands before the first
/// slash in them, and the passkey is made of the letters and digits behind it, at most 32.
/// Without the marker, with fewer bytes, or without a slash there are no keys.
pub proof fn keys_follow_the_marker(output: Seq<char>, before: Seq<char>, rest: Seq<char>, k: int)
    requires
        output == before + "IDPASSKEY:"@ + rest,
        forall|j: int|
            0 <= j < before.len() ==> #[trigger] output.subrange(j, j + 10) != "IDPASSKEY:"@,
        0 <= k <= rest.len(),
    ensures
        ({
            let both = rest.take(k);
            encode_utf8(both).len() == 49 ==> {
                &&& !both.contains('/') ==> keys_in(output) == Err::<
                    (Seq<char>, Seq<char>),
                    SetupErrorView,
                >(SetupErrorView::MissingPasskey)
                &&& forall|id: Seq<char>, tail: Seq<char>|
                    both == #[trigger] (id + seq!['/'] + tail) && !id.contains('/') ==> {
                        let letters = tail.filter(|c: char| text::is_ascii_alphanumeric(c));
                        keys_in(output) == Ok::<(Seq<char>, Seq<char>), SetupErrorView>(
                            (
                                id,
                                if letters.len() <= 32 {
                                    letters
                                } else {
                                    letters.take(32)
                                },
                            ),
                        )
                    }
            }
        }),
        (forall|n: int| 0 <= n <= rest.len() ==> encode_utf8(#[trigger] rest.take(n)).len() != 49)
            ==> keys_in(output) == Err::<(Seq<char>, Seq<char>), SetupErrorView>(
            SetupErrorView::Truncated,
        ),
{
    let marker = "IDPASSKEY:"@;
    assert(marker.len() == 10) by {
        reveal_strlit("IDPASSKEY:");
    }
    text::first_occurrences(output, marker);
    let at = before.len() as int;
    assert(output.subrange(at, at + 10) =~= marker);
    assert(text::first_occurrence(output, marker, 0) == Some(at)) by {
        let found = text::first_occurrence(output, marker, 0);
        if let Some(i) = found {
            if i > at {
                assert(output.subrange(at, at + marker.len()) == marker);
            }
        } else {
            assert(output.subrange(at, at + marker.len()) == marker);
        }
    }
    assert(output.skip(at + 10) =~= rest);
    let both = rest.take(k);
    text::bytes_of_characters(rest, 49, k as nat);
    if encode_utf8(both).len() == 49 {
        assert(text::chars_in_bytes(rest, 49) == Some(k as nat));
        both.index_of_first_ensures('/');
        assert forall|id: Seq<char>, tail: Seq<char>|
            both == #[trigger] (id + seq!['/'] + tail) && !id.contains('/') implies {
            let letters = tail.filter(|c: char| text::is_ascii_alphanumeric(c));
            keys_in(output) == Ok::<(Seq<char>, Seq<char>), SetupErrorView>(
                (
                    id,
                    if letters.len() <= 32 {
                        letters
                    } else {
                        letters.take(32)
                    },
                ),
            )
        } by {
            assert(both[id.len() as int] == '/');
            let j = both.index_of_first('/')->Some_0;
            assert(j == id.len()) by {
                assert forall|i: int| 0 <= i < id.len() implies both[i] != '/' by {
                    assert(both[i] == id[i]);
                }
            }
            assert(both.take(j) =~= id);
            assert(both.skip(j + 1) =~= tail);
            lemma_alphanumeric_filter(tail);
        }
    }
    if let Some(n) = text::chars_in_bytes(rest, 49) {
        text::bytes_of_characters(rest, 49, n);
        assert(encode_utf8(rest.take(n as int)).len() == 49);
    }
}

/// Without the marker there are no keys.
pub proof fn keys_need_the_marker(output: Seq<char>)
    requires
        forall|j: int|
            0 <= j <= output.len() - 10 ==> #[trigger] output.subrange(j, j + 10)
                != "IDPASSKEY:"@,
    ensures
        keys_in(output) == Err::<(Seq<char>, Seq<char>), SetupErrorView>(
            SetupErrorView::NoMarker(output),
        ),
{
    assert("IDPASSKEY:"@.len() == 10) by {
        reveal_strlit("IDPASSKEY:");
    }
    text::first_occurrences(output, "IDPASSKEY:"@);
}

} // verus!
