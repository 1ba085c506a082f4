//! The SSH tunnel monitor: matches the sshd tunnel sessions that `ps aux`
//! shows with the reverse-tunnel ports that `ss` shows, and keeps the
//! current list of connections.

use std::collections::HashMap;
use vstd::prelude::*;

use crate::foreign::{
    compile_pattern, decode_lossy, duration_secs, duration_since_epoch, pattern_captures,
    system_time_now, utf8_lossy,
};
use crate::models::{Connection, ConnectionView, connection_views, tunnel_connection};
use crate::ps_output::{
    bastion_host_from, bastion_port_from, collect_sessions, first_ssh_word_exec,
    is_interactive_exec, join_words_from, make_client_connection, reverse_forward_from, session_info_exec,
    lemma_session_info_shown, session_views, ssh_process_connection, sshd_line_shows_tunnel, sshd_process_connection, tunnel_sessions,
    TunnelSession, BASTION_HOST_PATTERN, REMOTE_USER_PATTERN, REVERSE_FORWARD_PATTERN,
    SSH_PORT_PATTERN,
};
use crate::ss_output::{
    client_addresses, listening_ports, parse_client_ips, parse_listening_ports, string_values,
};
use crate::text::{
    chars_of, contains_str, decimal, parse_u32_exec, push_decimal, split_words, string_of, words,
};

verus! {

broadcast use vstd::std_specs::hash::group_hash_axioms;

/// The connection record of a reverse tunnel (see `tunnel_connection`).
pub fn make_connection(pid: u32, user: &str, session_info: &str, client_ip: &str, port: u16) -> (r:
    Connection)
    ensures
        r@ == tunnel_connection(pid, user@, session_info@, client_ip@, port),
{
    let bastion_host = if client_ip.is_empty() {
        String::from_str(session_info)
    } else {
        let mut h = String::from_str(session_info);
        h.append(" (");
        h.append(client_ip);
        h.append(")");
        h
    };
    let mut remote_bind = String::from_str("*:");
    push_decimal(&mut remote_bind, port as u64);
    let mut command = String::from_str("ssh -p ");
    push_decimal(&mut command, port as u64);
    command.append(" root@<bastion-ip>");
    let r = Connection {
        pid,
        user: String::from_str(user),
        remote_bind,
        local_bind: String::from_str("localhost:22"),
        remote_port: port,
        local_port: 22,
        bastion_host,
        bastion_port: 22,
        command,
        uptime: String::from_str("running"),
        status: String::from_str("Connected"),
    };
    assert(r@.remote_bind =~= "*:"@ + decimal(port as nat));
    r
}

/// What the monitor holds: the connections found by the last refresh and
/// when that refresh ran (seconds since the Unix epoch).
pub struct MonitorView {
    pub connections: Seq<ConnectionView>,
    pub last_update: u64,
}

/// Watches the reverse tunnels that sshd holds open on the bastion.
pub struct SSHMonitor {
    connections: Vec<Connection>,
    last_update: u64,
}

/// Seconds since the Unix epoch by the wall clock; 0 for a clock set
/// before 1970.
fn current_unix_time() -> u64 {
    let now = system_time_now();
    match duration_since_epoch(&now) {
        Ok(d) => duration_secs(&d),
        Err(_) => 0,
    }
}

impl View for SSHMonitor {
    type V = MonitorView;

    closed spec fn view(&self) -> MonitorView {
        MonitorView { connections: connection_views(self.connections@), last_update: self.last_update }
    }
}

impl SSHMonitor {
    /// A monitor with no connections, stamped with the current time.
    pub fn new() -> (m: Self)
        ensures
            m@.connections.len() == 0,
    {
        SSHMonitor::with_timestamp(current_unix_time())
    }

    /// A monitor with no connections, stamped with `now`.
    pub fn with_timestamp(now: u64) -> (m: Self)
        ensures
            m@.connections.len() == 0,
            m@.last_update == now,
    {
        let m = SSHMonitor { connections: Vec::new(), last_update: now };
        assert(m@.connections =~= Seq::<ConnectionView>::empty());
        m
    }

    /// Records a reverse tunnel (see `tunnel_connection`).
    pub fn push_connection(
        &mut self,
        pid: u32,
        user: &str,
        session_info: &str,
        client_ip: &str,
        port: u16,
    )
        ensures
            final(self)@.connections == old(self)@.connections.push(
                tunnel_connection(pid, user@, session_info@, client_ip@, port),
            ),
            final(self)@.last_update == old(self)@.last_update,
    {
        let c = make_connection(pid, user, session_info, client_ip, port);
        self.connections.push(c);
        assert(connection_views(self.connections@) =~= connection_views(old(self).connections@).push(
            tunnel_connection(pid, user@, session_info@, client_ip@, port),
        ));
    }

    /// The connection a `ps aux` line of an sshd session stands for, given
    /// the reverse-tunnel port of each sshd pid (see
    /// `sshd_process_connection`).
    pub fn parse_sshd_process(&self, line: &str, listening_ports: &HashMap<u32, u16>) -> (r:
        Option<Connection>)
        ensures
            match r {
                Some(c) => sshd_process_connection(line@, listening_ports@) == Some(c@),
                None => sshd_process_connection(line@, listening_ports@) is None,
            },
            r matches Some(c) ==> sshd_line_shows_tunnel(line@, listening_ports@, c@),
    {
        let chars = chars_of(line);
        let line_chars = chars.as_slice();
        let parts = split_words(line_chars);
        if parts.len() < 2 {
            return None;
        }
        if contains_str(line_chars, "[listener]") {
            return None;
        }
        assert(parts@[1]@ == words(line@)[1]);
        assert(parts@[0]@ == words(line@)[0]);
        let pid = match parse_u32_exec(parts[1].as_slice()) {
            Some(pid) => pid,
            None => {
                return None;
            },
        };
        if !contains_str(line_chars, "sshd:") {
            return None;
        }
        let info = session_info_exec(line_chars);
        if is_interactive_exec(info.as_slice()) {
            return None;
        }
        let remote_port: u16 = match listening_ports.get(&pid) {
            Some(p) => *p,
            None => 0,
        };
        if remote_port == 0 {
            return None;
        }
        let user = string_of(parts[0].as_slice());
        let session = string_of(info.as_slice());
        proof {
            lemma_session_info_shown(line@);
        }
        let none = String::new();
        Some(make_connection(pid, user.as_str(), session.as_str(), none.as_str(), remote_port))
    }

    /// The connection a `ps aux` line of an ssh or autossh client with a
    /// reverse forward stands for (see `ssh_process_connection`).
    pub fn parse_ssh_process(&self, line: &str) -> (r: Option<Connection>)
        ensures
            match r {
                Some(c) => ssh_process_connection(line@) == Some(c@),
                None => ssh_process_connection(line@) is None,
            },
    {
        let chars = chars_of(line);
        let lc = chars.as_slice();
        if !contains_str(lc, "ssh") || contains_str(lc, "grep") {
            return None;
        }
        let parts = split_words(lc);
        if parts.len() < 2 {
            return None;
        }
        assert(parts@[1]@ == words(line@)[1]);
        assert(parts@[0]@ == words(line@)[0]);
        let pid = match parse_u32_exec(parts[1].as_slice()) {
            Some(pid) => pid,
            None => {
                return None;
            },
        };
        let user = string_of(parts[0].as_slice());
        let cmd_start = match first_ssh_word_exec(&parts) {
            Some(k) => k,
            None => {
                return None;
            },
        };
        let command = join_words_from(&parts, cmd_start);
        let reverse_re = match compile_pattern(REVERSE_FORWARD_PATTERN) {
            Ok(re) => re,
            Err(_) => {
                return None;
            },
        };
        let (remote_port, local_bind, local_port) = match reverse_forward_from(
            pattern_captures(&reverse_re, command.as_str()),
        ) {
            Some(f) => f,
            None => {
                return None;
            },
        };
        let bastion_re = match compile_pattern(BASTION_HOST_PATTERN) {
            Ok(re) => re,
            Err(_) => {
                return None;
            },
        };
        let bastion_host = match bastion_host_from(pattern_captures(&bastion_re, command.as_str())) {
            Some(h) => h,
            None => {
                return None;
            },
        };
        let port_re = compile_pattern(SSH_PORT_PATTERN);
        let bastion_port = match match port_re {
            Ok(re) => bastion_port_from(true, pattern_captures(&re, command.as_str())),
            Err(_) => bastion_port_from(false, None),
        } {
            Some(p) => p,
            None => {
                return None;
            },
        };
        let user_re = match compile_pattern(REMOTE_USER_PATTERN) {
            Ok(re) => re,
            Err(_) => {
                return None;
            },
        };
        let _remote_user = pattern_captures(&user_re, command.as_str());
        Some(
            make_client_connection(
                pid,
                user,
                command,
                remote_port,
                local_bind,
                local_port,
                bastion_host,
                bastion_port,
            ),
        )
    }

    /// The connections found by the last refresh.
    pub fn get_connections(&self) -> (r: Vec<Connection>)
        ensures
            connection_views(r@) == self@.connections,
    {
        let r = self.connections.clone();
        assert(connection_views(r@) =~= connection_views(self.connections@));
        r
    }

    /// How many connections the last refresh found.
    pub fn get_connection_count(&self) -> (n: usize)
        ensures
            n == self@.connections.len(),
    {
        self.connections.len()
    }

    /// When the last refresh ran, in seconds since the Unix epoch.
    pub fn last_update(&self) -> (t: u64)
        ensures
            t == self@.last_update,
    {
        self.last_update
    }
}

/// The client address recorded for `pid`, empty when there is none.
pub open spec fn client_of(ips: Map<u32, Seq<char>>, pid: u32) -> Seq<char> {
    if ips.contains_key(pid) {
        ips[pid]
    } else {
        seq![]
    }
}

/// The connection of a session on `port`.
pub open spec fn session_connection(
    s: (u32, Seq<char>, Seq<char>),
    ips: Map<u32, Seq<char>>,
    port: u16,
) -> ConnectionView {
    tunnel_connection(s.0, s.1, s.2, client_of(ips, s.0), port)
}

/// Each session whose pid owns a port, on that port, in session order.
pub open spec fn primary_matches(
    ss: Seq<(u32, Seq<char>, Seq<char>)>,
    by_pid: Map<u32, u16>,
    ips: Map<u32, Seq<char>>,
) -> Seq<ConnectionView>
    decreases ss.len(),
{
    if ss.len() == 0 {
        seq![]
    } else {
        let prev = primary_matches(ss.drop_last(), by_pid, ips);
        let s = ss.last();
        if by_pid.contains_key(s.0) {
            prev.push(session_connection(s, ips, by_pid[s.0]))
        } else {
            prev
        }
    }
}

/// The `i`-th session on the `i`-th port, as far as both lists go.
pub open spec fn positional_matches(
    ss: Seq<(u32, Seq<char>, Seq<char>)>,
    ports: Seq<u16>,
    ips: Map<u32, Seq<char>>,
) -> Seq<ConnectionView> {
    let n = if ss.len() <= ports.len() {
        ss.len()
    } else {
        ports.len()
    };
    Seq::new(n, |i: int| session_connection(ss[i], ips, ports[i]))
}

/// The connections the sessions make with the listening ports: by pid when
/// `ss` could show the owning pids, else by position.
pub open spec fn matched_connections(
    ss: Seq<(u32, Seq<char>, Seq<char>)>,
    by_pid: Map<u32, u16>,
    by_port: Map<u16, u32>,
    ports: Seq<u16>,
    ips: Map<u32, Seq<char>>,
) -> Seq<ConnectionView> {
    if by_pid.is_empty() && by_port.is_empty() {
        positional_matches(ss, ports, ips)
    } else {
        primary_matches(ss, by_pid, ips)
    }
}

proof fn lemma_primary_matches_none(
    ss: Seq<(u32, Seq<char>, Seq<char>)>,
    by_pid: Map<u32, u16>,
    ips: Map<u32, Seq<char>>,
)
    requires
        by_pid.is_empty(),
    ensures
        primary_matches(ss, by_pid, ips).len() == 0,
    decreases ss.len(),
{
    if ss.len() > 0 {
        lemma_primary_matches_none(ss.drop_last(), by_pid, ips);
        assert(!by_pid.dom().contains(ss.last().0));
    }
}

/// The byte strings of optional outputs.
pub open spec fn output_bytes(o: Option<&[u8]>) -> Option<Seq<u8>> {
    match o {
        Some(b) => Some(b@),
        None => None,
    }
}

/// The listening-port tables from optional `ss -tlnpH` output; all empty
/// when the command gave none.
pub open spec fn listening_from(o: Option<Seq<u8>>) -> (Map<u32, u16>, Map<u16, u32>, Seq<u16>) {
    match o {
        Some(b) => listening_ports(utf8_lossy(b)),
        None => (Map::empty(), Map::empty(), seq![]),
    }
}

/// The client addresses from optional `ss -tnpH state established`
/// output; empty when the command gave none.
pub open spec fn clients_from(o: Option<Seq<u8>>) -> Map<u32, Seq<char>> {
    match o {
        Some(b) => client_addresses(utf8_lossy(b)),
        None => Map::empty(),
    }
}

/// The connections a refresh finds from the three commands' outputs.
pub open spec fn refreshed_connections(
    listen: Option<Seq<u8>>,
    established: Option<Seq<u8>>,
    ps: Seq<u8>,
) -> Seq<ConnectionView> {
    let (by_pid, by_port, ports) = listening_from(listen);
    matched_connections(
        tunnel_sessions(utf8_lossy(ps)),
        by_pid,
        by_port,
        ports,
        clients_from(established),
    )
}

/// Why a refresh found nothing.
#[derive(Debug, PartialEq, Eq)]
pub enum RefreshError {
    /// `ps aux` gave no output.
    ProcessListUnavailable,
}

impl SSHMonitor {
    /// sshd's listening reverse-tunnel ports from the stdout of
    /// `ss -tlnpH`, if the command ran (see `listening_from`).
    pub fn get_sshd_listening_ports(&self, ss_stdout: Option<&[u8]>) -> (r: (
        HashMap<u32, u16>,
        HashMap<u16, u32>,
        Vec<u16>,
    ))
        ensures
            r.0@ == listening_from(output_bytes(ss_stdout)).0,
            r.1@ == listening_from(output_bytes(ss_stdout)).1,
            r.2@ == listening_from(output_bytes(ss_stdout)).2,
    {
        match ss_stdout {
            Some(bytes) => {
                let text = decode_lossy(bytes);
                parse_listening_ports(text.as_str())
            },
            None => {
                let r = (HashMap::new(), HashMap::new(), Vec::new());
                assert(r.2@ =~= Seq::<u16>::empty());
                r
            },
        }
    }

    /// The client address of each sshd pid from the stdout of
    /// `ss -tnpH state established`, if the command ran (see
    /// `clients_from`).
    pub fn get_client_ips(&self, ss_stdout: Option<&[u8]>) -> (r: HashMap<u32, String>)
        ensures
            string_values(r@) == clients_from(output_bytes(ss_stdout)),
    {
        match ss_stdout {
            Some(bytes) => {
                let text = decode_lossy(bytes);
                parse_client_ips(text.as_str())
            },
            None => {
                let r: HashMap<u32, String> = HashMap::new();
                assert(string_values(r@) =~= Map::empty());
                r
            },
        }
    }

    /// Whether a connection of `pid` is recorded.
    fn has_connection_for(&self, pid: u32) -> (r: bool)
        ensures
            r == exists|k: int| 0 <= k < self@.connections.len() && #[trigger] self@.connections[k].pid == pid,
    {
        let mut k: usize = 0;
        while k < self.connections.len()
            invariant
                0 <= k <= self.connections.len(),
                forall|j: int| 0 <= j < k ==> #[trigger] self@.connections[j].pid != pid,
            decreases self.connections.len() - k,
        {
            if self.connections[k].pid == pid {
                assert(self@.connections[k as int].pid == pid);
                return true;
            }
            k = k + 1;
        }
        false
    }

    /// Records the connections the sessions make with the listening ports:
    /// each session whose pid owns a port, on that port; when `ss` showed no
    /// owning pids at all, the sessions still unmatched take the unused
    /// ports in order. The monitor's list is empty when it is called, as it
    /// is right after a refresh clears it.
    pub fn match_sessions(
        &mut self,
        sessions: &Vec<TunnelSession>,
        port_by_pid: &HashMap<u32, u16>,
        pid_by_port: &HashMap<u16, u32>,
        all_reverse_ports: &Vec<u16>,
        client_ips: &HashMap<u32, String>,
    )
        requires
            old(self)@.connections.len() == 0,
        ensures
            final(self)@.connections == matched_connections(
                session_views(sessions@),
                port_by_pid@,
                pid_by_port@,
                all_reverse_ports@,
                string_values(client_ips@),
            ),
            final(self)@.last_update == old(self)@.last_update,
    {
        let ghost ss = session_views(sessions@);
        let ghost ips = string_values(client_ips@);
        let mut used_ports: std::collections::HashSet<u16> = std::collections::HashSet::new();
        let mut i: usize = 0;
        while i < sessions.len()
            invariant
                0 <= i <= sessions.len(),
                ss == session_views(sessions@),
                ips == string_values(client_ips@),
                self@.connections == primary_matches(ss.take(i as int), port_by_pid@, ips),
                self@.last_update == old(self)@.last_update,
                self@.connections.len() == 0 ==> used_ports@ == Set::<u16>::empty(),
            decreases sessions.len() - i,
        {
            let s = &sessions[i];
            proof {
                assert(ss.take(i + 1).drop_last() =~= ss.take(i as int));
                assert(ss.take(i + 1).last() == s@);
            }
            match port_by_pid.get(&s.pid) {
                Some(port) => {
                    let port = *port;
                    let client_ip = match client_ips.get(&s.pid) {
                        Some(t) => t.clone(),
                        None => String::new(),
                    };
                    assert(client_ip@ == client_of(ips, s.pid));
                    self.push_connection(
                        s.pid,
                        s.user.as_str(),
                        s.session_info.as_str(),
                        client_ip.as_str(),
                        port,
                    );
                    used_ports.insert(port);
                },
                None => {},
            }
            i = i + 1;
        }
        assert(ss.take(sessions.len() as int) =~= ss);
        if port_by_pid.is_empty() && pid_by_port.is_empty() {
            proof {
                lemma_primary_matches_none(ss, port_by_pid@, ips);
            }
            let mut unmatched: Vec<usize> = Vec::new();
            let mut k: usize = 0;
            while k < sessions.len()
                invariant
                    0 <= k <= sessions.len(),
                    self@.connections.len() == 0,
                    unmatched@ == Seq::new(k as nat, |j: int| j as usize),
                decreases sessions.len() - k,
            {
                if !self.has_connection_for(sessions[k].pid) {
                    unmatched.push(k);
                }
                assert(unmatched@ =~= Seq::new((k + 1) as nat, |j: int| j as usize));
                k = k + 1;
            }
            let mut avail_ports: Vec<u16> = Vec::new();
            let mut k: usize = 0;
            while k < all_reverse_ports.len()
                invariant
                    0 <= k <= all_reverse_ports.len(),
                    used_ports@ == Set::<u16>::empty(),
                    avail_ports@ == all_reverse_ports@.take(k as int),
                decreases all_reverse_ports.len() - k,
            {
                let p = all_reverse_ports[k];
                if !used_ports.contains(&p) {
                    avail_ports.push(p);
                }
                assert(avail_ports@ =~= all_reverse_ports@.take(k + 1));
                k = k + 1;
            }
            assert(avail_ports@ =~= all_reverse_ports@);
            let ghost ports = all_reverse_ports@;
            let mut i: usize = 0;
            while i < unmatched.len()
                invariant
                    0 <= i <= unmatched.len(),
                    unmatched.len() == sessions.len(),
                    unmatched@ == Seq::new(sessions.len() as nat, |j: int| j as usize),
                    avail_ports@ == ports,
                    ss == session_views(sessions@),
                    ips == string_values(client_ips@),
                    self@.connections == positional_matches(ss.take(i as int), ports, ips),
                    self@.last_update == old(self)@.last_update,
                decreases unmatched.len() - i,
            {
                let idx = unmatched[i];
                assert(idx == i);
                if i < avail_ports.len() {
                    let s = &sessions[idx];
                    let port = avail_ports[i];
                    let client_ip = match client_ips.get(&s.pid) {
                        Some(t) => t.clone(),
                        None => String::new(),
                    };
                    assert(client_ip@ == client_of(ips, s.pid));
                    self.push_connection(
                        s.pid,
                        s.user.as_str(),
                        s.session_info.as_str(),
                        client_ip.as_str(),
                        port,
                    );
                    assert(ss[i as int] == s@);
                    assert(self@.connections =~= positional_matches(ss.take(i + 1), ports, ips));
                } else {
                    assert(self@.connections =~= positional_matches(ss.take(i + 1), ports, ips));
                }
                i = i + 1;
            }
            assert(ss.take(sessions.len() as int) =~= ss);
        }
    }

    /// Replaces the connection list with the reverse tunnels that the
    /// stdout of `ss -tlnpH`, of `ss -tnpH state established` (each `None`
    /// when its command failed) and of `ps aux` show, stamping it with
    /// `now`. Without `ps` output the list is left empty and the refresh
    /// fails.
    pub fn refresh_at(
        &mut self,
        now: u64,
        listen_stdout: Option<&[u8]>,
        established_stdout: Option<&[u8]>,
        ps_stdout: Option<&[u8]>,
    ) -> (r: Result<(), RefreshError>)
        ensures
            final(self)@.last_update == now,
            match ps_stdout {
                None => r == Err::<(), RefreshError>(RefreshError::ProcessListUnavailable)
                    && final(self)@.connections.len() == 0,
                Some(ps) => r is Ok && final(self)@.connections == refreshed_connections(
                    output_bytes(listen_stdout),
                    output_bytes(established_stdout),
                    ps@,
                ),
            },
    {
        self.connections.clear();
        self.last_update = now;
        assert(self@.connections =~= Seq::<ConnectionView>::empty());
        let (port_by_pid, pid_by_port, all_reverse_ports) = self.get_sshd_listening_ports(
            listen_stdout,
        );
        let client_ips = self.get_client_ips(established_stdout);
        let ps_bytes = match ps_stdout {
            Some(b) => b,
            None => {
                return Err(RefreshError::ProcessListUnavailable);
            },
        };
        let ps_text = decode_lossy(ps_bytes);
        let sessions = collect_sessions(ps_text.as_str());
        self.match_sessions(&sessions, &port_by_pid, &pid_by_port, &all_reverse_ports, &client_ips);
        Ok(())
    }

    /// `refresh_at` stamped with the current time.
    pub fn refresh_with(
        &mut self,
        listen_stdout: Option<&[u8]>,
        established_stdout: Option<&[u8]>,
        ps_stdout: Option<&[u8]>,
    ) -> (r: Result<(), RefreshError>)
        ensures
            match ps_stdout {
                None => r == Err::<(), RefreshError>(RefreshError::ProcessListUnavailable)
                    && final(self)@.connections.len() == 0,
                Some(ps) => r is Ok && final(self)@.connections == refreshed_connections(
                    output_bytes(listen_stdout),
                    output_bytes(established_stdout),
                    ps@,
                ),
            },
    {
        let now = current_unix_time();
        self.refresh_at(now, listen_stdout, established_stdout, ps_stdout)
    }
}

} // verus!
