//! Reading `ps aux` output: the sshd sessions that hold reverse tunnels,
//! and the ssh or autossh client command lines that set one up.

use vstd::prelude::*;

use crate::foreign::{opt_groups_view, regex_captures, regex_compiles};
use crate::models::{Connection, ConnectionView, tunnel_connection};
use crate::ss_output::{group, group1_u16};
use crate::text::{
    chars_from, chars_of, contains, contains_str, decimal, ends_with, ends_with_str, equals_str,
    find, find_exec, first_occurrence, is_first_word, is_space, lemma_first_occurrence_exists,
    lemma_first_word, lemma_first_word_unique, lines, occurs_at, push_decimal, word_starts_at,
    parse_u16, parse_u16_exec, parse_u32, parse_u32_exec, rows_view, split_lines, split_words,
    string_of, words,
};

verus! {

/// The first word of `rest`, or `"unknown"` when it has none.
pub open spec fn first_word_or_unknown(rest: Seq<char>) -> Seq<char> {
    if words(rest).len() > 0 {
        words(rest)[0]
    } else {
        "unknown"@
    }
}

/// The session shown after `"sshd:"` in a `ps` line: the first word that
/// follows the first `"sshd:"`.
pub open spec fn session_info_of(line: Seq<char>) -> Seq<char> {
    first_word_or_unknown(line.skip(find(line, "sshd:"@).unwrap() + "sshd:"@.len()))
}

/// `info` is the session that a `ps aux` line shows after its first
/// `"sshd:"`: the first word that follows it, or `unknown` when only
/// whitespace follows.
pub open spec fn session_text_shown(line: Seq<char>, info: Seq<char>) -> bool {
    exists|i: int|
        #[trigger] first_occurrence(line, "sshd:"@, i) && {
            let rest = line.skip(i + "sshd:"@.len());
            ||| is_first_word(rest, info)
            ||| (info == "unknown"@ && forall|t: int| 0 <= t < rest.len() ==> is_space(#[trigger] rest[t]))
        }
}

/// The session text of a line with an `"sshd:"` is the session it shows
/// (see `session_text_shown`).
pub proof fn lemma_session_info_shown(line: Seq<char>)
    requires
        contains(line, "sshd:"@),
    ensures
        session_text_shown(line, session_info_of(line)),
{
    let k = choose|k: int| occurs_at(line, "sshd:"@, k);
    lemma_first_occurrence_exists(line, "sshd:"@, k);
    let i = find(line, "sshd:"@).unwrap();
    assert(first_occurrence(line, "sshd:"@, i));
    let rest = line.skip(i + "sshd:"@.len());
    lemma_first_word(rest);
}

/// A `ps aux` line shows at most one session after its `"sshd:"`.
pub proof fn lemma_session_text_unique(line: Seq<char>, a: Seq<char>, b: Seq<char>)
    requires
        session_text_shown(line, a),
        session_text_shown(line, b),
    ensures
        a == b,
{
    let i = choose|i: int|
        #[trigger] first_occurrence(line, "sshd:"@, i) && {
            let rest = line.skip(i + "sshd:"@.len());
            ||| is_first_word(rest, a)
            ||| (a == "unknown"@ && forall|t: int| 0 <= t < rest.len() ==> is_space(#[trigger] rest[t]))
        };
    let j = choose|j: int|
        #[trigger] first_occurrence(line, "sshd:"@, j) && {
            let rest = line.skip(j + "sshd:"@.len());
            ||| is_first_word(rest, b)
            ||| (b == "unknown"@ && forall|t: int| 0 <= t < rest.len() ==> is_space(#[trigger] rest[t]))
        };
    if i < j {
        assert(occurs_at(line, "sshd:"@, i));
    }
    if j < i {
        assert(occurs_at(line, "sshd:"@, j));
    }
    assert(i == j);
    let rest = line.skip(i + "sshd:"@.len());
    if is_first_word(rest, a) && is_first_word(rest, b) {
        lemma_first_word_unique(rest, a, b);
    } else if is_first_word(rest, a) && !is_first_word(rest, b) {
        let m = choose|m: int| word_starts_at(rest, a, m);
        assert(rest[m] == rest.subrange(m, m + a.len())[0]);
        assert(!is_space(a[0]));
    } else if is_first_word(rest, b) && !is_first_word(rest, a) {
        let m = choose|m: int| word_starts_at(rest, b, m);
        assert(rest[m] == rest.subrange(m, m + b.len())[0]);
        assert(!is_space(b[0]));
    }
}

/// A line that shows a tunnel session (see `line_shows_session`) yields
/// exactly that session.
pub proof fn lemma_shown_session_taken(line: Seq<char>, s: (u32, Seq<char>, Seq<char>))
    requires
        line_shows_session(line, s),
    ensures
        session_of_line(line) == Some(s),
{
    lemma_session_info_shown(line);
    lemma_session_text_unique(line, session_info_of(line), s.2);
}

/// Interactive sessions (a terminal or `notty`) carry no tunnel.
pub open spec fn is_interactive(info: Seq<char>) -> bool {
    contains(info, "@pts"@) || contains(info, "@notty"@)
}

/// The connection that a `ps aux` line of an sshd session stands for,
/// given the reverse-tunnel port of each sshd pid: none unless the line
/// has a user, a numeric pid and an `"sshd:"` session that is not the
/// listener nor interactive, and the pid owns a port.
pub open spec fn sshd_process_connection(line: Seq<char>, ports: Map<u32, u16>) -> Option<
    ConnectionView,
> {
    let parts = words(line);
    if parts.len() < 2 || contains(line, "[listener]"@) {
        None
    } else {
        match parse_u32(parts[1]) {
            None => None,
            Some(pid) => if !contains(line, "sshd:"@) {
                None
            } else {
                let info = session_info_of(line);
                let port: u16 = if ports.contains_key(pid) {
                    ports[pid]
                } else {
                    0
                };
                if is_interactive(info) || port == 0 {
                    None
                } else {
                    Some(tunnel_connection(pid, parts[0], info, seq![], port))
                }
            },
        }
    }
}

/// What a connection taken from an sshd `ps aux` line must show, put
/// directly in terms of the line: the line has an `"sshd:"` session and is
/// not the listener, its first word is the user and its second the pid,
/// the pid owns the connection's reverse port (never 0) among `ports`, and
/// the session text the connection reports is the session the line shows
/// after `"sshd:"` (see `session_text_shown`), neither a terminal (`@pts`)
/// nor a `notty` session.
pub open spec fn sshd_line_shows_tunnel(line: Seq<char>, ports: Map<u32, u16>, c: ConnectionView) -> bool {
    &&& contains(line, "sshd:"@)
    &&& !contains(line, "[listener]"@)
    &&& words(line).len() >= 2
    &&& words(line)[0] == c.user
    &&& parse_u32(words(line)[1]) == Some(c.pid)
    &&& ports.contains_key(c.pid)
    &&& ports[c.pid] == c.remote_port
    &&& c.remote_port != 0
    &&& session_text_shown(line, c.bastion_host)
    &&& !contains(c.bastion_host, "@pts"@)
    &&& !contains(c.bastion_host, "@notty"@)
}

/// A candidate tunnel session from `ps aux`: the sshd pid, the user that
/// owns it and the session text.
pub struct TunnelSession {
    pub pid: u32,
    pub user: String,
    pub session_info: String,
}

impl View for TunnelSession {
    type V = (u32, Seq<char>, Seq<char>);

    open spec fn view(&self) -> (u32, Seq<char>, Seq<char>) {
        (self.pid, self.user@, self.session_info@)
    }
}

/// The tunnel session a `ps aux` line shows: an sshd session line that is
/// not a `grep`, a privilege-separation process, the listener, nor an
/// interactive session, with a numeric pid.
pub open spec fn session_of_line(line: Seq<char>) -> Option<(u32, Seq<char>, Seq<char>)> {
    if !contains(line, "sshd:"@) || contains(line, "grep"@) || contains(line, "[priv]"@)
        || contains(line, "[listener]"@) {
        None
    } else {
        let parts = words(line);
        if parts.len() < 2 {
            None
        } else {
            match parse_u32(parts[1]) {
                None => None,
                Some(pid) => {
                    let info = session_info_of(line);
                    if is_interactive(info) {
                        None
                    } else {
                        Some((pid, parts[0], info))
                    }
                },
            }
        }
    }
}

/// What a tunnel session taken from a `ps aux` line must show, put
/// directly in terms of the line: the line has an `"sshd:"` session and is
/// no `grep`, privilege-separation or listener process, its first word is
/// the session's user and its second the session's pid, the session text
/// is the session the line shows after `"sshd:"` (see
/// `session_text_shown`), and it is neither a terminal (`@pts`) nor a
/// `notty` session.
pub open spec fn line_shows_session(line: Seq<char>, s: (u32, Seq<char>, Seq<char>)) -> bool {
    &&& contains(line, "sshd:"@)
    &&& !contains(line, "grep"@)
    &&& !contains(line, "[priv]"@)
    &&& !contains(line, "[listener]"@)
    &&& words(line).len() >= 2
    &&& words(line)[0] == s.1
    &&& parse_u32(words(line)[1]) == Some(s.0)
    &&& session_text_shown(line, s.2)
    &&& !contains(s.2, "@pts"@)
    &&& !contains(s.2, "@notty"@)
}

/// The session text after the first `"sshd:"` of `line`, which holds one.
pub(crate) fn session_info_exec(line: &[char]) -> (r: Vec<char>)
    requires
        contains(line@, "sshd:"@),
    ensures
        r@ == session_info_of(line@),
{
    let marker = chars_of("sshd:");
    let found = find_exec(line, marker.as_slice());
    let pos = match found {
        Some(pos) => pos,
        None => {
            assert(false);
            0
        },
    };
    assert(occurs_at(line@, marker@, pos as int));
    assert(pos + marker@.len() <= line@.len());
    assert(pos + marker.len() <= line.len());
    let rest = chars_from(line, pos + marker.len());
    let rest_words = split_words(rest.as_slice());
    if rest_words.len() > 0 {
        let w = chars_from(rest_words[0].as_slice(), 0);
        assert(w@ =~= rest_words@[0]@);
        w
    } else {
        chars_of("unknown")
    }
}

/// Whether a session text is interactive.
pub(crate) fn is_interactive_exec(info: &[char]) -> (r: bool)
    ensures
        r == is_interactive(info@),
{
    contains_str(info, "@pts") || contains_str(info, "@notty")
}

/// The tunnel session a `ps aux` line shows, if any.
pub fn parse_session_line(line: &[char]) -> (r: Option<TunnelSession>)
    ensures
        match r {
            Some(s) => session_of_line(line@) == Some(s@),
            None => session_of_line(line@) is None,
        },
        r matches Some(s) ==> line_shows_session(line@, s@),
{
    if !contains_str(line, "sshd:") || contains_str(line, "grep") || contains_str(line, "[priv]")
        || contains_str(line, "[listener]") {
        return None;
    }
    let parts = split_words(line);
    if parts.len() < 2 {
        return None;
    }
    assert(parts@[1]@ == words(line@)[1]);
    match parse_u32_exec(parts[1].as_slice()) {
        None => None,
        Some(pid) => {
            let info = session_info_exec(line);
            if is_interactive_exec(info.as_slice()) {
                None
            } else {
                assert(parts@[0]@ == words(line@)[0]);
                proof {
                    lemma_session_info_shown(line@);
                }
                Some(
                    TunnelSession {
                        pid,
                        user: string_of(parts[0].as_slice()),
                        session_info: string_of(info.as_slice()),
                    },
                )
            }
        },
    }
}

/// The tunnel sessions that the lines of `ps aux` show, in order.
pub open spec fn sessions_in(ls: Seq<Seq<char>>) -> Seq<(u32, Seq<char>, Seq<char>)>
    decreases ls.len(),
{
    if ls.len() == 0 {
        seq![]
    } else {
        let prev = sessions_in(ls.drop_last());
        match session_of_line(ls.last()) {
            Some(s) => prev.push(s),
            None => prev,
        }
    }
}

/// The tunnel sessions that `ps aux` output shows.
pub open spec fn tunnel_sessions(text: Seq<char>) -> Seq<(u32, Seq<char>, Seq<char>)> {
    sessions_in(lines(text))
}

/// The views of a list of sessions.
pub open spec fn session_views(s: Seq<TunnelSession>) -> Seq<(u32, Seq<char>, Seq<char>)> {
    s.map_values(|t: TunnelSession| t@)
}

/// Collects the tunnel sessions from `ps aux` output (see
/// `tunnel_sessions`).
pub fn collect_sessions(ps_output: &str) -> (r: Vec<TunnelSession>)
    ensures
        session_views(r@) == tunnel_sessions(ps_output@),
{
    let text = chars_of(ps_output);
    let ls = split_lines(text.as_slice());
    let ghost lv = rows_view(ls@);
    let mut sessions: Vec<TunnelSession> = Vec::new();
    let mut i: usize = 0;
    while i < ls.len()
        invariant
            0 <= i <= ls.len(),
            lv == rows_view(ls@),
            session_views(sessions@) == sessions_in(lv.take(i as int)),
        decreases ls.len() - i,
    {
        proof {
            assert(lv.take(i + 1).drop_last() =~= lv.take(i as int));
            assert(lv.take(i + 1).last() == ls@[i as int]@);
        }
        match parse_session_line(ls[i].as_slice()) {
            Some(t) => {
                let ghost before = session_views(sessions@);
                sessions.push(t);
                assert(session_views(sessions@) =~= before.push(t@));
            },
            None => {},
        }
        i = i + 1;
    }
    assert(lv.take(ls.len() as int) =~= lv);
    sessions
}

/// Finds a reverse forward `-R [*]:PORT:HOST:PORT` in an ssh command line.
pub const REVERSE_FORWARD_PATTERN: &'static str = r"-R\s+\*?:(\d+):([^:]+):(\d+)";

/// Finds the bastion host after `bastion@` or `autossh@`.
pub const BASTION_HOST_PATTERN: &'static str = r"(?:bastion|autossh)@([^\s]+)";

/// Finds the SSH port given with `-p`.
pub const SSH_PORT_PATTERN: &'static str = r"-p\s+(\d+)";

/// Finds the remote user before an `@`.
pub const REMOTE_USER_PATTERN: &'static str = r"([a-zA-Z0-9]+)@";

/// A word that names the ssh client program: `ssh` itself, a path ending
/// in `/ssh`, or any word naming `autossh`.
pub open spec fn is_ssh_program(w: Seq<char>) -> bool {
    w == "ssh"@ || ends_with(w, "/ssh"@) || contains(w, "autossh"@)
}

/// The index of the first word naming the ssh client program.
pub open spec fn first_ssh_word(parts: Seq<Seq<char>>) -> Option<int>
    decreases parts.len(),
{
    if parts.len() == 0 {
        None
    } else {
        match first_ssh_word(parts.drop_last()) {
            Some(k) => Some(k),
            None => if is_ssh_program(parts.last()) {
                Some(parts.len() - 1)
            } else {
                None
            },
        }
    }
}

/// The words joined by single spaces.
pub open spec fn join_words(ws: Seq<Seq<char>>) -> Seq<char>
    decreases ws.len(),
{
    if ws.len() == 0 {
        seq![]
    } else if ws.len() == 1 {
        ws[0]
    } else {
        join_words(ws.drop_last()) + " "@ + ws.last()
    }
}

/// The remote port, local host and local port of the reverse forward in a
/// command line, given the match of `REVERSE_FORWARD_PATTERN` in it.
pub open spec fn reverse_forward_of(caps: Option<Seq<Option<Seq<char>>>>) -> Option<
    (u16, Seq<char>, u16),
> {
    match caps {
        None => None,
        Some(g) => match (group(g, 1), group(g, 2), group(g, 3)) {
            (Some(t1), Some(host), Some(t3)) => match (parse_u16(t1), parse_u16(t3)) {
                (Some(remote), Some(local)) => Some((remote, host, local)),
                _ => None,
            },
            _ => None,
        },
    }
}

/// The bastion host of a command line, given the match of
/// `BASTION_HOST_PATTERN` in it.
pub open spec fn bastion_host_of(caps: Option<Seq<Option<Seq<char>>>>) -> Option<Seq<char>> {
    match caps {
        None => None,
        Some(g) => group(g, 1),
    }
}

/// The bastion's SSH port of a command line, given whether
/// `SSH_PORT_PATTERN` compiled and its match: 22 unless a `-p` gives one,
/// nothing when the `-p` value is no `u16`.
pub open spec fn bastion_port_of(compiled: bool, caps: Option<Seq<Option<Seq<char>>>>) -> Option<u16> {
    if !compiled {
        Some(22)
    } else {
        match caps {
            None => Some(22),
            Some(g) => match group(g, 1) {
                None => None,
                Some(t) => parse_u16(t),
            },
        }
    }
}

/// The record of a reverse tunnel that an ssh client process `pid` of
/// `user` runs with `command`, forwarding the bastion's `remote_port` to
/// `local_bind:local_port`, connected to `bastion_host:bastion_port`.
pub open spec fn client_connection(
    pid: u32,
    user: Seq<char>,
    command: Seq<char>,
    remote_port: u16,
    local_bind: Seq<char>,
    local_port: u16,
    bastion_host: Seq<char>,
    bastion_port: u16,
) -> ConnectionView {
    ConnectionView {
        pid,
        user,
        remote_bind: "*:"@ + decimal(remote_port as nat),
        local_bind,
        remote_port,
        local_port,
        bastion_host,
        bastion_port,
        command,
        uptime: "running"@,
        status: "Connected"@,
    }
}

/// The record of a reverse tunnel an ssh client process runs (see
/// `client_connection`).
pub fn make_client_connection(
    pid: u32,
    user: String,
    command: String,
    remote_port: u16,
    local_bind: String,
    local_port: u16,
    bastion_host: String,
    bastion_port: u16,
) -> (r: Connection)
    ensures
        r@ == client_connection(
            pid,
            user@,
            command@,
            remote_port,
            local_bind@,
            local_port,
            bastion_host@,
            bastion_port,
        ),
{
    let mut remote_bind = String::from_str("*:");
    push_decimal(&mut remote_bind, remote_port as u64);
    Connection {
        pid,
        user,
        remote_bind,
        local_bind,
        remote_port,
        local_port,
        bastion_host,
        bastion_port,
        command,
        uptime: String::from_str("running"),
        status: String::from_str("Connected"),
    }
}

/// The connection an ssh or autossh client command line sets up, owned by
/// process `pid` of `user`.
pub open spec fn ssh_command_connection(pid: u32, user: Seq<char>, command: Seq<char>) -> Option<
    ConnectionView,
> {
    if !regex_compiles(REVERSE_FORWARD_PATTERN@) || !regex_compiles(BASTION_HOST_PATTERN@)
        || !regex_compiles(REMOTE_USER_PATTERN@) {
        None
    } else {
        match (
            reverse_forward_of(regex_captures(REVERSE_FORWARD_PATTERN@, command)),
            bastion_host_of(regex_captures(BASTION_HOST_PATTERN@, command)),
            bastion_port_of(
                regex_compiles(SSH_PORT_PATTERN@),
                regex_captures(SSH_PORT_PATTERN@, command),
            ),
        ) {
            (Some((remote_port, local_bind, local_port)), Some(bastion_host), Some(bastion_port)) => Some(
                client_connection(
                    pid,
                    user,
                    command,
                    remote_port,
                    local_bind,
                    local_port,
                    bastion_host,
                    bastion_port,
                ),
            ),
            _ => None,
        }
    }
}

/// The connection a `ps aux` line of an ssh or autossh client with a
/// reverse forward stands for: the command runs from the first word naming
/// the client program.
pub open spec fn ssh_process_connection(line: Seq<char>) -> Option<ConnectionView> {
    if !contains(line, "ssh"@) || contains(line, "grep"@) {
        None
    } else {
        let parts = words(line);
        if parts.len() < 2 {
            None
        } else {
            match parse_u32(parts[1]) {
                None => None,
                Some(pid) => match first_ssh_word(parts) {
                    None => None,
                    Some(k) => ssh_command_connection(pid, parts[0], join_words(parts.skip(k))),
                },
            }
        }
    }
}

/// The reverse forward, given what `REVERSE_FORWARD_PATTERN` matched
/// (see `reverse_forward_of`).
pub fn reverse_forward_from(caps: Option<Vec<Option<String>>>) -> (r: Option<(u16, String, u16)>)
    ensures
        match r {
            Some((remote, host, local)) => reverse_forward_of(opt_groups_view(caps)) == Some(
                (remote, host@, local),
            ),
            None => reverse_forward_of(opt_groups_view(caps)) is None,
        },
{
    let g = match caps {
        Some(g) => g,
        None => {
            return None;
        },
    };
    if g.len() < 4 {
        return None;
    }
    let remote = match &g[1] {
        Some(t) => {
            let cs = chars_of(t.as_str());
            parse_u16_exec(cs.as_slice())
        },
        None => {
            return None;
        },
    };
    let host = match &g[2] {
        Some(t) => t.clone(),
        None => {
            return None;
        },
    };
    let local = match &g[3] {
        Some(t) => {
            let cs = chars_of(t.as_str());
            parse_u16_exec(cs.as_slice())
        },
        None => {
            return None;
        },
    };
    match (remote, local) {
        (Some(remote), Some(local)) => Some((remote, host, local)),
        _ => None,
    }
}

/// The bastion host, given what `BASTION_HOST_PATTERN` matched (see
/// `bastion_host_of`).
pub fn bastion_host_from(caps: Option<Vec<Option<String>>>) -> (r: Option<String>)
    ensures
        match r {
            Some(h) => bastion_host_of(opt_groups_view(caps)) == Some(h@),
            None => bastion_host_of(opt_groups_view(caps)) is None,
        },
{
    match caps {
        Some(g) => if g.len() > 1 {
            match &g[1] {
                Some(t) => Some(t.clone()),
                None => None,
            }
        } else {
            None
        },
        None => None,
    }
}

/// The bastion's SSH port, given whether `SSH_PORT_PATTERN` compiled and
/// what it matched (see `bastion_port_of`).
pub fn bastion_port_from(compiled: bool, caps: Option<Vec<Option<String>>>) -> (r: Option<u16>)
    ensures
        r == bastion_port_of(compiled, opt_groups_view(caps)),
{
    if !compiled {
        return Some(22);
    }
    match caps {
        None => Some(22),
        Some(g) => group1_u16(&g),
    }
}

/// The index of the first word naming the ssh client program.
pub(crate) fn first_ssh_word_exec(parts: &Vec<Vec<char>>) -> (r: Option<usize>)
    ensures
        match r {
            Some(k) => first_ssh_word(rows_view(parts@)) == Some(k as int) && k < parts.len(),
            None => first_ssh_word(rows_view(parts@)) is None,
        },
{
    let ghost pv = rows_view(parts@);
    let mut i: usize = 0;
    while i < parts.len()
        invariant
            0 <= i <= parts.len(),
            pv == rows_view(parts@),
            first_ssh_word(pv.take(i as int)) is None,
        decreases parts.len() - i,
    {
        assert(pv.take(i + 1).drop_last() =~= pv.take(i as int));
        assert(pv.take(i + 1).last() == parts@[i as int]@);
        let w = parts[i].as_slice();
        if equals_str(w, "ssh") || ends_with_str(w, "/ssh") || contains_str(w, "autossh") {
            proof {
                lemma_first_ssh_word_prefix(pv, i + 1);
            }
            return Some(i);
        }
        i = i + 1;
    }
    assert(pv.take(parts.len() as int) =~= pv);
    None
}

proof fn lemma_first_ssh_word_prefix(parts: Seq<Seq<char>>, n: int)
    requires
        0 < n <= parts.len(),
        first_ssh_word(parts.take(n - 1)) is None,
        is_ssh_program(parts[n - 1]),
    ensures
        first_ssh_word(parts) == Some(n - 1),
    decreases parts.len(),
{
    if n == parts.len() {
        assert(parts.drop_last() =~= parts.take(n - 1));
    } else {
        assert(parts.drop_last().take(n - 1) =~= parts.take(n - 1));
        lemma_first_ssh_word_prefix(parts.drop_last(), n);
    }
}

/// The words from index `k` on, joined by single spaces.
pub(crate) fn join_words_from(parts: &Vec<Vec<char>>, k: usize) -> (r: String)
    requires
        k <= parts.len(),
    ensures
        r@ == join_words(rows_view(parts@).skip(k as int)),
{
    let ghost ws = rows_view(parts@).skip(k as int);
    let mut out: Vec<char> = Vec::new();
    let mut i: usize = k;
    while i < parts.len()
        invariant
            k <= i <= parts.len(),
            ws == rows_view(parts@).skip(k as int),
            out@ == join_words(ws.take(i - k)),
        decreases parts.len() - i,
    {
        let w = &parts[i];
        let ghost before = out@;
        if i > k {
            out.push(' ');
        }
        proof {
            reveal_strlit(" ");
            let base = if i > k {
                before + " "@
            } else {
                before
            };
            assert(out@ =~= base + w@.take(0));
        }
        let mut j: usize = 0;
        while j < w.len()
            invariant
                0 <= j <= w.len(),
                out@ == (if i > k {
                    before + " "@
                } else {
                    before
                }) + w@.take(j as int),
            decreases w.len() - j,
        {
            out.push(w[j]);
            proof {
                let base = if i > k {
                    before + " "@
                } else {
                    before
                };
                assert(out@ =~= base + w@.take(j + 1));
            }
            j = j + 1;
        }
        proof {
            reveal_strlit(" ");
            assert(w@.take(w.len() as int) =~= w@);
            assert(ws.take(i - k + 1).drop_last() =~= ws.take(i - k));
            assert(ws.take(i - k + 1).last() == w@);
            if i == k {
                assert(before.len() == 0);
                assert(out@ =~= join_words(ws.take(i - k + 1)));
            } else {
                assert(out@ =~= join_words(ws.take(i - k + 1)));
            }
        }
        i = i + 1;
    }
    assert(ws.take(parts.len() - k) =~= ws);
    string_of(out.as_slice())
}

} // verus!
