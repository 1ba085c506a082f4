//! Reading `ss` output: sshd's listening reverse-tunnel ports from
//! `ss -tlnpH`, and the client address of each sshd session from
//! `ss -tnpH state established`.

use std::collections::HashMap;
use vstd::prelude::*;

use crate::foreign::{
    all_groups_view, compile_pattern, groups_view, opt_groups_view, pattern_captures,
    pattern_captures_all, regex_captures, regex_captures_all, regex_compiles,
};
use crate::text::{
    chars_from, chars_of, contains, contains_str, leading_spaces_exec, lemma_leading_spaces_bound,
    lines, parse_u16, parse_u16_exec, parse_u32, parse_u32_exec, rows_view, split_lines,
    starts_with, starts_with_exec, string_of, trim_start,
};

verus! {

broadcast use vstd::std_specs::hash::group_hash_axioms;

/// Finds, in a line of `ss -tlnpH`, the listening port: an address
/// `0.0.0.0`, `*` or `[::]` with a port of two to five digits, followed by
/// a wildcard peer.
pub const LISTEN_ADDR_PATTERN: &'static str = r"(?:0\.0\.0\.0|\*|\[::\]):(\d{2,5})\s+(?:0\.0\.0\.0|\*|\[::\]):\*";

/// Finds each sshd pid in the process column of `ss -p`.
pub const SSHD_PID_PATTERN: &'static str = r#""sshd",pid=(\d+)"#;

/// Finds, in a line of `ss -tnpH state established`, the peer address: the
/// second address column, just before the process column.
pub const PEER_ADDR_PATTERN: &'static str = r"\d+\s+\d+\s+\S+:\d+\s+(\S+:\d+)\s+users:";

/// Group `k` of a match, as `regex::Captures::get` gives it.
pub open spec fn group(g: Seq<Option<Seq<char>>>, k: int) -> Option<Seq<char>> {
    if 0 <= k < g.len() {
        g[k]
    } else {
        None
    }
}

/// A line of `ss -tlnpH` that shows a listening socket.
pub open spec fn is_listen_line(line: Seq<char>) -> bool {
    starts_with(trim_start(line), "LISTEN"@)
}

/// The reverse-tunnel port a line of `ss -tlnpH` shows, given the match of
/// `LISTEN_ADDR_PATTERN` in it: the listening port, when it is above 1023
/// and the line, if it names its processes, names sshd.
pub open spec fn listen_port_of_line(line: Seq<char>, caps: Option<Seq<Option<Seq<char>>>>) -> Option<
    u16,
> {
    if !is_listen_line(line) {
        None
    } else {
        match caps {
            None => None,
            Some(g) => match group(g, 1) {
                None => None,
                Some(t) => match parse_u16(t) {
                    None => None,
                    Some(port) => if port <= 1023 || port == 22 {
                        None
                    } else if contains(line, "users:("@) && !contains(line, "sshd"@) {
                        None
                    } else {
                        Some(port)
                    },
                },
            },
        }
    }
}

/// A line of `ss -tlnpH` listens on a wildcard address at `port`, given
/// the match `caps` of `LISTEN_ADDR_PATTERN` in it, and that port is a
/// reverse tunnel's: it is a `LISTEN` line, group 1 of the match reads as
/// `port`, the port is above 1023, and the line, if it names its
/// processes, names sshd.
pub open spec fn listener_shows_port(
    line: Seq<char>,
    caps: Option<Seq<Option<Seq<char>>>>,
    port: u16,
) -> bool {
    &&& starts_with(trim_start(line), "LISTEN"@)
    &&& match caps {
        Some(g) => g.len() > 1 && match g[1] {
            Some(t) => parse_u16(t) == Some(port),
            None => false,
        },
        None => false,
    }
    &&& port > 1023
    &&& contains(line, "users:("@) ==> contains(line, "sshd"@)
}

/// Some line of `ls` shows a reverse-tunnel listener on `port` (see
/// `listener_shows_port`).
pub open spec fn some_line_listens(ls: Seq<Seq<char>>, port: u16) -> bool {
    exists|j: int|
        0 <= j < ls.len() && #[trigger] listener_shows_port(
            ls[j],
            regex_captures(LISTEN_ADDR_PATTERN@, ls[j]),
            port,
        )
}

/// The pids that the matches of `SSHD_PID_PATTERN` in a line name, in
/// order, leaving out any that does not parse as a `u32`.
pub open spec fn pids_in(matches: Seq<Seq<Option<Seq<char>>>>) -> Seq<u32>
    decreases matches.len(),
{
    if matches.len() == 0 {
        seq![]
    } else {
        let prev = pids_in(matches.drop_last());
        match group(matches.last(), 1) {
            Some(t) => match parse_u32(t) {
                Some(pid) => prev.push(pid),
                None => prev,
            },
            None => prev,
        }
    }
}

/// A line of `ss -tlnpH` shows a reverse-tunnel listener on `port` (see
/// `listener_shows_port`) whose process column names the sshd `pid`.
pub open spec fn line_lists_listener(line: Seq<char>, port: u16, pid: u32) -> bool {
    &&& listener_shows_port(line, regex_captures(LISTEN_ADDR_PATTERN@, line), port)
    &&& pids_in(regex_captures_all(SSHD_PID_PATTERN@, line)).contains(pid)
}

/// Records that each of `pids` owns `port`: in `by_pid` the last record of
/// a pid stands, in `by_port` the first pid recorded for a port.
pub open spec fn record_listener(
    by_pid: Map<u32, u16>,
    by_port: Map<u16, u32>,
    pids: Seq<u32>,
    port: u16,
) -> (Map<u32, u16>, Map<u16, u32>)
    decreases pids.len(),
{
    if pids.len() == 0 {
        (by_pid, by_port)
    } else {
        let (a, b) = record_listener(by_pid, by_port, pids.drop_last(), port);
        let pid = pids.last();
        (a.insert(pid, port), if b.contains_key(port) {
            b
        } else {
            b.insert(port, pid)
        })
    }
}

/// The tables that the lines of `ss -tlnpH` give, line by line: pid to
/// port, port to pid, and the tunnel ports in the order found.
pub open spec fn listen_scan(ls: Seq<Seq<char>>) -> (Map<u32, u16>, Map<u16, u32>, Seq<u16>)
    decreases ls.len(),
{
    if ls.len() == 0 {
        (Map::empty(), Map::empty(), seq![])
    } else {
        let (a, b, ports) = listen_scan(ls.drop_last());
        let line = ls.last();
        match listen_port_of_line(line, regex_captures(LISTEN_ADDR_PATTERN@, line)) {
            None => (a, b, ports),
            Some(port) => {
                let (a2, b2) = record_listener(
                    a,
                    b,
                    pids_in(regex_captures_all(SSHD_PID_PATTERN@, line)),
                    port,
                );
                (a2, b2, ports.push(port))
            },
        }
    }
}

/// `s` with `x` placed before the first element it does not exceed.
pub open spec fn insert_ascending(s: Seq<u16>, x: u16) -> Seq<u16>
    decreases s.len(),
{
    if s.len() == 0 {
        seq![x]
    } else if x <= s[0] {
        seq![x] + s
    } else {
        seq![s[0]] + insert_ascending(s.drop_first(), x)
    }
}

/// The elements of `p` in ascending order.
pub open spec fn ascending(p: Seq<u16>) -> Seq<u16>
    decreases p.len(),
{
    if p.len() == 0 {
        p
    } else {
        insert_ascending(ascending(p.drop_last()), p.last())
    }
}

proof fn lemma_insert_ascending_at(s: Seq<u16>, x: u16, k: int)
    requires
        0 <= k <= s.len(),
        forall|j: int| 0 <= j < k ==> !(x <= #[trigger] s[j]),
        k < s.len() ==> x <= s[k],
    ensures
        insert_ascending(s, x) == s.insert(k, x),
    decreases s.len(),
{
    if s.len() == 0 {
        assert(s.insert(k, x) =~= seq![x]);
    } else if k == 0 {
        assert(s.insert(k, x) =~= seq![x] + s);
    } else {
        let t = s.drop_first();
        assert forall|j: int| 0 <= j < k - 1 implies !(x <= #[trigger] t[j]) by {
            assert(t[j] == s[j + 1]);
        }
        lemma_insert_ascending_at(t, x, k - 1);
        assert(s.insert(k, x) =~= seq![s[0]] + t.insert(k - 1, x));
    }
}

/// The ports in ascending order.
pub fn sort_ports(ports: &[u16]) -> (r: Vec<u16>)
    ensures
        r@ == ascending(ports@),
{
    let mut out: Vec<u16> = Vec::new();
    let mut i: usize = 0;
    while i < ports.len()
        invariant
            0 <= i <= ports.len(),
            out@ == ascending(ports@.take(i as int)),
        decreases ports.len() - i,
    {
        let x = ports[i];
        let mut k: usize = 0;
        while k < out.len() && !(x <= out[k])
            invariant
                0 <= k <= out.len(),
                forall|j: int| 0 <= j < k ==> !(x <= #[trigger] out@[j]),
            decreases out.len() - k,
        {
            k = k + 1;
        }
        proof {
            lemma_insert_ascending_at(out@, x, k as int);
            assert(ports@.take(i + 1).drop_last() =~= ports@.take(i as int));
        }
        out.insert(k, x);
        i = i + 1;
    }
    assert(ports@.take(ports.len() as int) =~= ports@);
    out
}

/// The tables of sshd's listening reverse-tunnel ports that `ss -tlnpH`
/// output gives: pid to port (the last port seen for a pid), port to pid
/// (the first pid seen for a port), and all tunnel ports in ascending
/// order. All are empty when a pattern does not compile.
pub open spec fn listening_ports(text: Seq<char>) -> (Map<u32, u16>, Map<u16, u32>, Seq<u16>) {
    if regex_compiles(LISTEN_ADDR_PATTERN@) && regex_compiles(SSHD_PID_PATTERN@) {
        let (a, b, p) = listen_scan(lines(text));
        (a, b, ascending(p))
    } else {
        (Map::empty(), Map::empty(), seq![])
    }
}

/// Whether a line of `ss -tlnpH` shows a listening socket.
pub(crate) fn is_listen_line_exec(line: &[char]) -> (r: bool)
    ensures
        r == is_listen_line(line@),
{
    let n = leading_spaces_exec(line);
    proof {
        lemma_leading_spaces_bound(line@);
    }
    let rest = chars_from(line, n);
    let marker = chars_of("LISTEN");
    starts_with_exec(rest.as_slice(), marker.as_slice())
}

/// Group 1 of a match, parsed as a `u16`.
pub(crate) fn group1_u16(g: &Vec<Option<String>>) -> (r: Option<u16>)
    ensures
        r == (match group(groups_view(g@), 1) {
            Some(t) => parse_u16(t),
            None => None,
        }),
{
    if g.len() > 1 {
        match &g[1] {
            Some(t) => {
                let cs = chars_of(t.as_str());
                parse_u16_exec(cs.as_slice())
            },
            None => None,
        }
    } else {
        None
    }
}

/// Group 1 of a match, parsed as a `u32`.
pub(crate) fn group1_u32(g: &Vec<Option<String>>) -> (r: Option<u32>)
    ensures
        r == (match group(groups_view(g@), 1) {
            Some(t) => parse_u32(t),
            None => None,
        }),
{
    if g.len() > 1 {
        match &g[1] {
            Some(t) => {
                let cs = chars_of(t.as_str());
                parse_u32_exec(cs.as_slice())
            },
            None => None,
        }
    } else {
        None
    }
}

/// The reverse-tunnel port a line of `ss -tlnpH` shows, given what
/// `LISTEN_ADDR_PATTERN` matched in it (see `listen_port_of_line`).
pub fn listen_port_from(line: &[char], caps: Option<Vec<Option<String>>>) -> (r: Option<u16>)
    ensures
        r == listen_port_of_line(line@, opt_groups_view(caps)),
        forall|p: u16| r == Some(p) <==> #[trigger] listener_shows_port(line@, opt_groups_view(caps), p),
{
    if !is_listen_line_exec(line) {
        return None;
    }
    let g = match caps {
        Some(g) => g,
        None => {
            return None;
        },
    };
    let port = match group1_u16(&g) {
        Some(p) => p,
        None => {
            return None;
        },
    };
    if port <= 1023 || port == 22 {
        return None;
    }
    if contains_str(line, "users:(") && !contains_str(line, "sshd") {
        return None;
    }
    Some(port)
}

/// The pids that matches of `SSHD_PID_PATTERN` name (see `pids_in`).
pub fn pids_from(matches: &Vec<Vec<Option<String>>>) -> (r: Vec<u32>)
    ensures
        r@ == pids_in(all_groups_view(matches@)),
{
    let mut r: Vec<u32> = Vec::new();
    let mut i: usize = 0;
    while i < matches.len()
        invariant
            0 <= i <= matches.len(),
            r@ == pids_in(all_groups_view(matches@).take(i as int)),
        decreases matches.len() - i,
    {
        proof {
            assert(all_groups_view(matches@).take(i + 1).drop_last() =~= all_groups_view(
                matches@,
            ).take(i as int));
            assert(all_groups_view(matches@).take(i + 1).last() == groups_view(matches@[i as int]@));
        }
        match group1_u32(&matches[i]) {
            Some(pid) => r.push(pid),
            None => {},
        }
        i = i + 1;
    }
    assert(all_groups_view(matches@).take(matches.len() as int) =~= all_groups_view(matches@));
    r
}

/// Records that each of `pids` owns `port` (see `record_listener`).
pub fn record_listener_pids(
    by_pid: &mut HashMap<u32, u16>,
    by_port: &mut HashMap<u16, u32>,
    pids: &Vec<u32>,
    port: u16,
)
    ensures
        (final(by_pid)@, final(by_port)@) == record_listener(old(by_pid)@, old(by_port)@, pids@, port),
{
    let ghost a0 = by_pid@;
    let ghost b0 = by_port@;
    let mut j: usize = 0;
    while j < pids.len()
        invariant
            0 <= j <= pids.len(),
            a0 == old(by_pid)@,
            b0 == old(by_port)@,
            (by_pid@, by_port@) == record_listener(a0, b0, pids@.take(j as int), port),
        decreases pids.len() - j,
    {
        let pid = pids[j];
        assert(pids@.take(j + 1).drop_last() =~= pids@.take(j as int));
        by_pid.insert(pid, port);
        if !by_port.contains_key(&port) {
            by_port.insert(port, pid);
        }
        j = j + 1;
    }
    assert(pids@.take(pids.len() as int) =~= pids@);
}

/// Parses `ss -tlnpH` output into sshd's listening reverse-tunnel ports
/// (see `listening_ports`).
pub fn parse_listening_ports(ss_output: &str) -> (r: (HashMap<u32, u16>, HashMap<u16, u32>, Vec<u16>))
    ensures
        r.0@ == listening_ports(ss_output@).0,
        r.1@ == listening_ports(ss_output@).1,
        r.2@ == listening_ports(ss_output@).2,
        forall|port: u16|
            #[trigger] r.2@.contains(port) <==> regex_compiles(LISTEN_ADDR_PATTERN@)
                && regex_compiles(SSHD_PID_PATTERN@) && some_line_listens(lines(ss_output@), port),
{
    let mut by_pid: HashMap<u32, u16> = HashMap::new();
    let mut by_port: HashMap<u16, u32> = HashMap::new();
    let mut ports: Vec<u16> = Vec::new();
    let line_re = match compile_pattern(LISTEN_ADDR_PATTERN) {
        Ok(re) => re,
        Err(_) => {
            return (by_pid, by_port, ports);
        },
    };
    let pid_re = match compile_pattern(SSHD_PID_PATTERN) {
        Ok(re) => re,
        Err(_) => {
            return (by_pid, by_port, ports);
        },
    };
    let text = chars_of(ss_output);
    let ls = split_lines(text.as_slice());
    let ghost lv = rows_view(ls@);
    let mut i: usize = 0;
    while i < ls.len()
        invariant
            0 <= i <= ls.len(),
            lv == rows_view(ls@),
            line_re@ == LISTEN_ADDR_PATTERN@,
            pid_re@ == SSHD_PID_PATTERN@,
            (by_pid@, by_port@, ports@) == listen_scan(lv.take(i as int)),
        decreases ls.len() - i,
    {
        let line = ls[i].as_slice();
        proof {
            assert(lv.take(i + 1).drop_last() =~= lv.take(i as int));
            assert(lv.take(i + 1).last() == line@);
        }
        if is_listen_line_exec(line) {
            let line_str = string_of(line);
            let caps = pattern_captures(&line_re, line_str.as_str());
            match listen_port_from(line, caps) {
                None => {},
                Some(port) => {
                    ports.push(port);
                    let ms = pattern_captures_all(&pid_re, line_str.as_str());
                    let pids = pids_from(&ms);
                    record_listener_pids(&mut by_pid, &mut by_port, &pids, port);
                },
            }
        }
        i = i + 1;
    }
    assert(lv.take(ls.len() as int) =~= lv);
    let sorted = sort_ports(ports.as_slice());
    proof {
        assert forall|port: u16| #[trigger] sorted@.contains(port) <==> some_line_listens(
            lines(ss_output@),
            port,
        ) by {
            crate::laws::lemma_tunnel_ports_are_listeners(ss_output@, port);
        }
    }
    (by_pid, by_port, sorted)
}

/// The text of group 1 of a match, empty when there is none.
pub open spec fn peer_of(caps: Option<Seq<Option<Seq<char>>>>) -> Seq<char> {
    match caps {
        Some(g) => match group(g, 1) {
            Some(t) => t,
            None => seq![],
        },
        None => seq![],
    }
}

/// A line of `ss -tnpH state established` mentions sshd and names `pid`
/// among the sshd pids of its process column.
pub open spec fn line_names_sshd_pid(line: Seq<char>, pid: u32) -> bool {
    contains(line, "sshd"@) && pids_in(regex_captures_all(SSHD_PID_PATTERN@, line)).contains(pid)
}

/// Line `j` of `ls` is the first that names the sshd `pid`.
pub open spec fn first_line_naming(ls: Seq<Seq<char>>, pid: u32, j: int) -> bool {
    &&& 0 <= j < ls.len()
    &&& line_names_sshd_pid(ls[j], pid)
    &&& forall|i: int| 0 <= i < j ==> !#[trigger] line_names_sshd_pid(ls[i], pid)
}

/// The peer address column of a line of `ss -tnpH state established`:
/// the text that group 1 of `PEER_ADDR_PATTERN` matches in it, empty when
/// the pattern does not match. It is found whether or not the line starts
/// with a State column.
pub open spec fn peer_column(line: Seq<char>) -> Seq<char> {
    match regex_captures(PEER_ADDR_PATTERN@, line) {
        Some(g) => if g.len() > 1 && g[1] is Some {
            g[1]->0
        } else {
            seq![]
        },
        None => seq![],
    }
}

/// Records `peer` as the client address of each of `pids` not recorded yet.
pub open spec fn record_peer(m: Map<u32, Seq<char>>, pids: Seq<u32>, peer: Seq<char>) -> Map<
    u32,
    Seq<char>,
>
    decreases pids.len(),
{
    if pids.len() == 0 {
        m
    } else {
        let m2 = record_peer(m, pids.drop_last(), peer);
        if m2.contains_key(pids.last()) {
            m2
        } else {
            m2.insert(pids.last(), peer)
        }
    }
}

/// The client addresses that the lines of `ss -tnpH state established`
/// give, line by line: each sshd pid of a line mentioning sshd gets the
/// peer address of the first such line that names it.
pub open spec fn client_scan(ls: Seq<Seq<char>>) -> Map<u32, Seq<char>>
    decreases ls.len(),
{
    if ls.len() == 0 {
        Map::empty()
    } else {
        let m = client_scan(ls.drop_last());
        let line = ls.last();
        if !contains(line, "sshd"@) {
            m
        } else {
            record_peer(
                m,
                pids_in(regex_captures_all(SSHD_PID_PATTERN@, line)),
                peer_of(regex_captures(PEER_ADDR_PATTERN@, line)),
            )
        }
    }
}

/// The client address (`ip:port`) of each sshd pid that
/// `ss -tnpH state established` output shows; empty when a pattern does not
/// compile.
pub open spec fn client_addresses(text: Seq<char>) -> Map<u32, Seq<char>> {
    if regex_compiles(SSHD_PID_PATTERN@) && regex_compiles(PEER_ADDR_PATTERN@) {
        client_scan(lines(text))
    } else {
        Map::empty()
    }
}

/// A map to strings, with the strings taken as character sequences.
pub open spec fn string_values(m: Map<u32, String>) -> Map<u32, Seq<char>> {
    m.map_values(|t: String| t@)
}

/// Group 1 of a match, as text, empty when there is none.
pub fn group1_text(caps: Option<Vec<Option<String>>>) -> (r: String)
    ensures
        r@ == peer_of(opt_groups_view(caps)),
{
    match caps {
        Some(g) => {
            if g.len() > 1 {
                match &g[1] {
                    Some(t) => t.clone(),
                    None => String::new(),
                }
            } else {
                String::new()
            }
        },
        None => String::new(),
    }
}

/// Records `peer` as the client address of each of `pids` not recorded yet
/// (see `record_peer`).
pub fn record_peer_pids(map: &mut HashMap<u32, String>, pids: &Vec<u32>, peer: &String)
    ensures
        string_values(final(map)@) == record_peer(string_values(old(map)@), pids@, peer@),
{
    let ghost m0 = string_values(map@);
    let mut j: usize = 0;
    while j < pids.len()
        invariant
            0 <= j <= pids.len(),
            m0 == string_values(old(map)@),
            string_values(map@) == record_peer(m0, pids@.take(j as int), peer@),
        decreases pids.len() - j,
    {
        let pid = pids[j];
        assert(pids@.take(j + 1).drop_last() =~= pids@.take(j as int));
        if !map.contains_key(&pid) {
            let ghost before = map@;
            map.insert(pid, peer.clone());
            assert(string_values(map@) =~= string_values(before).insert(pid, peer@));
        }
        j = j + 1;
    }
    assert(pids@.take(pids.len() as int) =~= pids@);
}

/// Parses `ss -tnpH state established` output into the client address of
/// each sshd pid (see `client_addresses`).
pub fn parse_client_ips(ss_output: &str) -> (r: HashMap<u32, String>)
    ensures
        string_values(r@) == client_addresses(ss_output@),
        forall|pid: u32|
            #[trigger] r@.contains_key(pid) ==> exists|j: int|
                #[trigger] first_line_naming(lines(ss_output@), pid, j) && r@[pid]@ == peer_column(
                    lines(ss_output@)[j],
                ),
        forall|pid: u32, j: int|
            regex_compiles(SSHD_PID_PATTERN@) && regex_compiles(PEER_ADDR_PATTERN@) && 0 <= j
                < lines(ss_output@).len() && #[trigger] line_names_sshd_pid(lines(ss_output@)[j], pid)
                ==> r@.contains_key(pid),
{
    let mut map: HashMap<u32, String> = HashMap::new();
    let pid_re = match compile_pattern(SSHD_PID_PATTERN) {
        Ok(re) => re,
        Err(_) => {
            assert(string_values(map@) =~= Map::empty());
            return map;
        },
    };
    let addr_re = match compile_pattern(PEER_ADDR_PATTERN) {
        Ok(re) => re,
        Err(_) => {
            assert(string_values(map@) =~= Map::empty());
            return map;
        },
    };
    let text = chars_of(ss_output);
    let ls = split_lines(text.as_slice());
    let ghost lv = rows_view(ls@);
    assert(string_values(map@) =~= Map::empty());
    let mut i: usize = 0;
    while i < ls.len()
        invariant
            0 <= i <= ls.len(),
            lv == rows_view(ls@),
            pid_re@ == SSHD_PID_PATTERN@,
            addr_re@ == PEER_ADDR_PATTERN@,
            string_values(map@) == client_scan(lv.take(i as int)),
        decreases ls.len() - i,
    {
        let line = ls[i].as_slice();
        proof {
            assert(lv.take(i + 1).drop_last() =~= lv.take(i as int));
            assert(lv.take(i + 1).last() == line@);
        }
        if contains_str(line, "sshd") {
            let line_str = string_of(line);
            let peer = group1_text(pattern_captures(&addr_re, line_str.as_str()));
            let ms = pattern_captures_all(&pid_re, line_str.as_str());
            let pids = pids_from(&ms);
            record_peer_pids(&mut map, &pids, &peer);
        }
        i = i + 1;
    }
    assert(lv.take(ls.len() as int) =~= lv);
    proof {
        let text = ss_output@;
        assert forall|pid: u32| #[trigger] map@.contains_key(pid) implies exists|j: int|
            #[trigger] first_line_naming(lines(text), pid, j) && map@[pid]@ == peer_column(
                lines(text)[j],
            ) by {
            assert(string_values(map@).contains_key(pid));
            crate::laws::lemma_client_address_is_peer_column(text, pid);
        }
        assert forall|pid: u32, j: int|
            0 <= j < lines(text).len() && #[trigger] line_names_sshd_pid(lines(text)[j], pid)
                implies map@.contains_key(pid) by {
            crate::laws::lemma_client_address_is_peer_column(text, pid);
            assert(string_values(map@).contains_key(pid));
        }
    }
    map
}

} // verus!
