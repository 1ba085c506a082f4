//! Properties of the monitor that hold for every input: the tunnel-port
//! tables, the sessions taken from `ps`, and the connections a refresh
//! finds.

use vstd::prelude::*;

use crate::foreign::{regex_captures, regex_captures_all, regex_compiles, utf8_lossy};
use crate::models::{Connection, ConnectionView, connection_views};
use crate::ps_output::{
    first_ssh_word, is_interactive, is_ssh_program, join_words, lemma_session_info_shown,
    lemma_shown_session_taken,
    line_shows_session, session_of_line, sessions_in, ssh_command_connection,
    ssh_process_connection, sshd_line_shows_tunnel, sshd_process_connection, tunnel_sessions,
};
use crate::render::{
    card_row, connection_card, connection_cards, connections_html, CARD_BASTION,
    CARD_BASTION_PORT, CARD_END, CARD_LOCAL, CARD_LOCAL_PORT, CARD_PID, CARD_REVERSE_PORT,
    CARD_STATUS, CARD_STATUS_ROW, CARD_USER, LIST_CLOSE, LIST_OPEN, NO_CONNECTIONS_HTML,
};
use crate::ss_output::{
    ascending, client_addresses, client_scan, first_line_naming, insert_ascending,
    line_lists_listener, line_names_sshd_pid, listen_port_of_line, listen_scan,
    listener_shows_port, listening_ports, peer_column, peer_of, pids_in, record_listener,
    record_peer, some_line_listens, LISTEN_ADDR_PATTERN, PEER_ADDR_PATTERN, SSHD_PID_PATTERN,
};
use crate::ssh_monitor::{
    clients_from, listening_from, matched_connections, primary_matches, refreshed_connections,
    session_connection, SSHMonitor,
};
use crate::text::{
    all_digits, contains, decimal, decimal_value, digit_char, digit_value, ends_with, is_digit,
    lemma_words_occur, lines, occurs_at, parse_u16, parse_u32, unsigned_digits, words,
};

verus! {

broadcast use vstd::seq_lib::group_to_multiset_ensures;

/// The elements are in ascending order.
pub open spec fn is_ascending(s: Seq<u16>) -> bool {
    forall|i: int, j: int| 0 <= i <= j < s.len() ==> s[i] <= s[j]
}

/// A port the monitor takes for a reverse tunnel: above the privileged
/// range (and so never sshd's own port 22).
pub open spec fn is_tunnel_port(p: u16) -> bool {
    p > 1023 && p != 22
}

proof fn lemma_insert_ascending(s: Seq<u16>, x: u16)
    ensures
        insert_ascending(s, x).len() == s.len() + 1,
        insert_ascending(s, x).to_multiset() == s.to_multiset().insert(x),
        forall|i: int|
            0 <= i < insert_ascending(s, x).len() ==> #[trigger] insert_ascending(s, x)[i] == x
                || s.contains(insert_ascending(s, x)[i]),
        is_ascending(s) ==> is_ascending(insert_ascending(s, x)),
    decreases s.len(),
{
    if s.len() == 0 {
        assert(seq![x] =~= Seq::<u16>::empty().push(x));
    } else if x <= s[0] {
        assert(seq![x] + s =~= s.insert(0, x));
        assert forall|i: int| 0 <= i < s.len() + 1 implies #[trigger] (seq![x] + s)[i] == x || s.contains((seq![x] + s)[i]) by {
            if i > 0 {
                assert(s[i - 1] == (seq![x] + s)[i]);
            }
        }
    } else {
        let t = s.drop_first();
        lemma_insert_ascending(t, x);
        let r = insert_ascending(s, x);
        let it = insert_ascending(t, x);
        assert(r =~= seq![s[0]] + it);
        assert(s =~= seq![s[0]] + t);
        assert(seq![s[0]] + it =~= it.insert(0, s[0]));
        assert(seq![s[0]] + t =~= t.insert(0, s[0]));
        assert forall|i: int| 0 <= i < r.len() implies #[trigger] r[i] == x || s.contains(r[i]) by {
            if i > 0 {
                assert(r[i] == it[i - 1]);
                if it[i - 1] != x {
                    let k = choose|k: int| 0 <= k < t.len() && t[k] == it[i - 1];
                    assert(s[k + 1] == t[k]);
                }
            } else {
                assert(s[0] == r[0]);
            }
        }
        if is_ascending(s) {
            assert forall|i: int, j: int| 0 <= i <= j < r.len() implies r[i] <= r[j] by {
                if i == 0 {
                    if j > 0 {
                        assert(r[j] == it[j - 1]);
                        if it[j - 1] == x {
                        } else {
                            let k = choose|k: int| 0 <= k < t.len() && t[k] == it[j - 1];
                            assert(s[k + 1] == t[k]);
                        }
                    }
                } else {
                    assert(r[i] == it[i - 1]);
                    assert(r[j] == it[j - 1]);
                }
            }
        }
    }
}

/// The tunnel ports that `ss -tlnpH` output gives come out in ascending
/// order, and they are exactly the ports found, each as often as found
/// (none at all when a pattern does not compile).
pub proof fn lemma_tunnel_ports_ascending(text: Seq<char>)
    ensures
        is_ascending(listening_ports(text).2),
        regex_compiles(LISTEN_ADDR_PATTERN@) && regex_compiles(SSHD_PID_PATTERN@)
            ==> listening_ports(text).2.to_multiset() == listen_scan(lines(text)).2.to_multiset(),
{
    lemma_ascending(listen_scan(lines(text)).2);
}

/// `ascending` sorts: its result is in ascending order and holds the same
/// elements as often.
pub proof fn lemma_ascending(p: Seq<u16>)
    ensures
        is_ascending(ascending(p)),
        ascending(p).to_multiset() == p.to_multiset(),
    decreases p.len(),
{
    if p.len() > 0 {
        lemma_ascending(p.drop_last());
        lemma_insert_ascending(ascending(p.drop_last()), p.last());
        assert(p.drop_last().push(p.last()) =~= p);
    }
}

proof fn lemma_listen_port_of_line_shows(line: Seq<char>, caps: Option<Seq<Option<Seq<char>>>>, port: u16)
    ensures
        listen_port_of_line(line, caps) == Some(port) <==> listener_shows_port(line, caps, port),
{
}

proof fn lemma_listen_scan_ports(ls: Seq<Seq<char>>, port: u16)
    ensures
        listen_scan(ls).2.contains(port) <==> some_line_listens(ls, port),
    decreases ls.len(),
{
    if ls.len() > 0 {
        let prev_ls = ls.drop_last();
        let line = ls.last();
        lemma_listen_scan_ports(prev_ls, port);
        let prev = listen_scan(prev_ls).2;
        let cur = listen_scan(ls).2;
        let caps = regex_captures(LISTEN_ADDR_PATTERN@, line);
        lemma_listen_port_of_line_shows(line, caps, port);
        assert(ls[ls.len() - 1] == line);
        if some_line_listens(prev_ls, port) {
            let j = choose|j: int|
                0 <= j < prev_ls.len() && #[trigger] listener_shows_port(
                    prev_ls[j],
                    regex_captures(LISTEN_ADDR_PATTERN@, prev_ls[j]),
                    port,
                );
            assert(ls[j] == prev_ls[j]);
        }
        if some_line_listens(ls, port) {
            let j = choose|j: int|
                0 <= j < ls.len() && #[trigger] listener_shows_port(
                    ls[j],
                    regex_captures(LISTEN_ADDR_PATTERN@, ls[j]),
                    port,
                );
            if j < ls.len() - 1 {
                assert(prev_ls[j] == ls[j]);
            }
        }
        match listen_port_of_line(line, caps) {
            None => {
                assert(cur == prev);
            },
            Some(q) => {
                assert(cur == prev.push(q));
                assert(cur[prev.len() as int] == q);
                if prev.contains(port) {
                    let k = choose|k: int| 0 <= k < prev.len() && prev[k] == port;
                    assert(cur[k] == port);
                }
                if cur.contains(port) {
                    let k = choose|k: int| 0 <= k < cur.len() && cur[k] == port;
                    if k < prev.len() {
                        assert(prev[k] == port);
                    }
                }
            },
        }
    }
}

/// The tunnel ports that `ss -tlnpH` output gives are exactly the ports of
/// its lines that show a reverse-tunnel listener (see
/// `listener_shows_port`): a `LISTEN` line on a wildcard address at a port
/// above 1023, naming sshd if it names processes. No such port is left
/// out, whatever its number of digits, and no other comes in.
pub proof fn lemma_tunnel_ports_are_listeners(text: Seq<char>, port: u16)
    requires
        regex_compiles(LISTEN_ADDR_PATTERN@),
        regex_compiles(SSHD_PID_PATTERN@),
    ensures
        listening_ports(text).2.contains(port) <==> some_line_listens(lines(text), port),
{
    let p = listen_scan(lines(text)).2;
    lemma_listen_scan_ports(lines(text), port);
    lemma_ascending(p);
    assert(p.to_multiset().count(port) == ascending(p).to_multiset().count(port));
}

proof fn lemma_record_peer(m: Map<u32, Seq<char>>, pids: Seq<u32>, peer: Seq<char>, pid: u32)
    ensures
        record_peer(m, pids, peer).contains_key(pid) <==> m.contains_key(pid) || pids.contains(pid),
        record_peer(m, pids, peer).contains_key(pid) ==> record_peer(m, pids, peer)[pid] == if m.contains_key(pid) {
            m[pid]
        } else {
            peer
        },
    decreases pids.len(),
{
    if pids.len() > 0 {
        let prev = pids.drop_last();
        lemma_record_peer(m, prev, peer, pid);
        assert(pids[pids.len() - 1] == pids.last());
        if prev.contains(pid) {
            let k = choose|k: int| 0 <= k < prev.len() && prev[k] == pid;
            assert(pids[k] == pid);
        }
        if pids.contains(pid) {
            let k = choose|k: int| 0 <= k < pids.len() && pids[k] == pid;
            if k < prev.len() {
                assert(prev[k] == pid);
            }
        }
    }
}

proof fn lemma_client_scan(ls: Seq<Seq<char>>, pid: u32)
    ensures
        client_scan(ls).contains_key(pid) <==> exists|j: int|
            0 <= j < ls.len() && #[trigger] line_names_sshd_pid(ls[j], pid),
        client_scan(ls).contains_key(pid) ==> exists|j: int|
            #[trigger] first_line_naming(ls, pid, j) && client_scan(ls)[pid] == peer_column(ls[j]),
    decreases ls.len(),
{
    if ls.len() > 0 {
        let prev_ls = ls.drop_last();
        let line = ls.last();
        lemma_client_scan(prev_ls, pid);
        let m = client_scan(prev_ls);
        assert(ls[ls.len() - 1] == line);
        assert forall|i: int| 0 <= i < prev_ls.len() implies ls[i] == prev_ls[i] by {}
        if exists|j: int| 0 <= j < prev_ls.len() && #[trigger] line_names_sshd_pid(prev_ls[j], pid) {
            let j = choose|j: int| 0 <= j < prev_ls.len() && #[trigger] line_names_sshd_pid(prev_ls[j], pid);
            assert(line_names_sshd_pid(ls[j], pid));
        }
        if m.contains_key(pid) {
            let j = choose|j: int| #[trigger] first_line_naming(prev_ls, pid, j) && m[pid] == peer_column(prev_ls[j]);
            assert(first_line_naming(ls, pid, j));
        }
        if contains(line, "sshd"@) {
            let pids = pids_in(regex_captures_all(SSHD_PID_PATTERN@, line));
            let peer = peer_of(regex_captures(PEER_ADDR_PATTERN@, line));
            lemma_record_peer(m, pids, peer, pid);
            assert(peer == peer_column(line));
            if !m.contains_key(pid) && pids.contains(pid) {
                assert(line_names_sshd_pid(ls[ls.len() - 1], pid));
                assert forall|i: int| 0 <= i < ls.len() - 1 implies !#[trigger] line_names_sshd_pid(ls[i], pid) by {
                    assert(ls[i] == prev_ls[i]);
                }
                assert(first_line_naming(ls, pid, ls.len() - 1));
            }
            if exists|j: int| 0 <= j < ls.len() && #[trigger] line_names_sshd_pid(ls[j], pid) {
                let j = choose|j: int| 0 <= j < ls.len() && #[trigger] line_names_sshd_pid(ls[j], pid);
                if j < ls.len() - 1 {
                    assert(line_names_sshd_pid(prev_ls[j], pid));
                }
            }
        } else {
            assert(!line_names_sshd_pid(ls[ls.len() - 1], pid));
            if exists|j: int| 0 <= j < ls.len() && #[trigger] line_names_sshd_pid(ls[j], pid) {
                let j = choose|j: int| 0 <= j < ls.len() && #[trigger] line_names_sshd_pid(ls[j], pid);
                assert(j < ls.len() - 1);
                assert(line_names_sshd_pid(prev_ls[j], pid));
            }
        }
    }
}

/// The client address recorded for an sshd pid comes from
/// `ss -tnpH state established` output as it stands: a pid has one exactly
/// when a line mentioning sshd names it, and the address is the peer
/// address column (see `peer_column`) of the first such line.
pub proof fn lemma_client_address_is_peer_column(text: Seq<char>, pid: u32)
    requires
        regex_compiles(SSHD_PID_PATTERN@),
        regex_compiles(PEER_ADDR_PATTERN@),
    ensures
        client_addresses(text).contains_key(pid) <==> exists|j: int|
            0 <= j < lines(text).len() && #[trigger] line_names_sshd_pid(lines(text)[j], pid),
        client_addresses(text).contains_key(pid) ==> exists|j: int|
            #[trigger] first_line_naming(lines(text), pid, j) && client_addresses(text)[pid]
                == peer_column(lines(text)[j]),
{
    lemma_client_scan(lines(text), pid);
}

proof fn lemma_contains_extend(s: Seq<char>, w: Seq<char>, t: Seq<char>)
    requires
        contains(s, w),
    ensures
        contains(s + t, w),
{
    let i = choose|i: int| occurs_at(s, w, i);
    assert((s + t).subrange(i, i + w.len()) =~= s.subrange(i, i + w.len()));
    assert(occurs_at(s + t, w, i));
}

proof fn lemma_contains_after(t: Seq<char>, s: Seq<char>, w: Seq<char>)
    requires
        contains(s, w),
    ensures
        contains(t + s, w),
{
    let i = choose|i: int| occurs_at(s, w, i);
    let j = i + t.len();
    assert((t + s).subrange(j, j + w.len()) =~= s.subrange(i, i + w.len()));
    assert(occurs_at(t + s, w, j));
}

proof fn lemma_cards_contain(cs: Seq<ConnectionView>)
    ensures
        forall|i: int| 0 <= i < cs.len() ==> contains(connection_cards(cs), #[trigger] connection_card(cs[i])),
    decreases cs.len(),
{
    if cs.len() > 0 {
        let p = cs.drop_last();
        lemma_cards_contain(p);
        let last = connection_card(cs.last());
        assert forall|i: int| 0 <= i < cs.len() implies contains(connection_cards(cs), #[trigger] connection_card(cs[i])) by {
            if i < p.len() {
                assert(cs[i] == p[i]);
                lemma_contains_extend(connection_cards(p), connection_card(p[i]), last);
            } else {
                let x = connection_cards(p);
                assert((x + last).subrange(x.len() as int, (x.len() + last.len()) as int) =~= last);
                assert(occurs_at(x + last, last, x.len() as int));
            }
        }
    }
}

/// The HTML fragment of a list of connections is the no-connections
/// notice exactly when the list is empty, and otherwise holds the card of
/// every connection of the list, inside the list's container.
pub proof fn lemma_fragment_shows_every_connection(cs: Seq<ConnectionView>)
    ensures
        cs.len() == 0 ==> connections_html(cs) == NO_CONNECTIONS_HTML@,
        cs.len() > 0 ==> connections_html(cs).take(LIST_OPEN@.len() as int) == LIST_OPEN@,
        forall|i: int| 0 <= i < cs.len() ==> contains(connections_html(cs), #[trigger] connection_card(cs[i])),
{
    if cs.len() > 0 {
        lemma_cards_contain(cs);
        let body = connection_cards(cs);
        assert((LIST_OPEN@ + body + LIST_CLOSE@).take(LIST_OPEN@.len() as int) =~= LIST_OPEN@);
        assert forall|i: int| 0 <= i < cs.len() implies contains(connections_html(cs), #[trigger] connection_card(cs[i])) by {
            lemma_contains_after(LIST_OPEN@, body, connection_card(cs[i]));
            lemma_contains_extend(LIST_OPEN@ + body, connection_card(cs[i]), LIST_CLOSE@);
        }
    }
}

proof fn lemma_row_between(
    p: Seq<char>,
    x1: Seq<char>,
    x2: Seq<char>,
    v: Seq<char>,
    y1: Seq<char>,
    y2: Seq<char>,
)
    ensures
        contains(p + (x1 + x2) + v + (y1 + y2), x2 + v + y1),
{
    let s = p + (x1 + x2) + v + (y1 + y2);
    let w = x2 + v + y1;
    let i: int = (p.len() + x1.len()) as int;
    assert(s.subrange(i, i + w.len()) =~= w);
    assert(occurs_at(s, w, i));
}

proof fn lemma_row_between3(
    p: Seq<char>,
    x1: Seq<char>,
    x2: Seq<char>,
    v1: Seq<char>,
    v2: Seq<char>,
    v3: Seq<char>,
    y1: Seq<char>,
    y2: Seq<char>,
)
    ensures
        contains(p + (x1 + x2) + v1 + v2 + v3 + (y1 + y2), x2 + (v1 + v2 + v3) + y1),
{
    let s = p + (x1 + x2) + v1 + v2 + v3 + (y1 + y2);
    let w = x2 + (v1 + v2 + v3) + y1;
    let i: int = (p.len() + x1.len()) as int;
    assert(s.subrange(i, i + w.len()) =~= w);
    assert(occurs_at(s, w, i));
}

spec fn row_start(label: Seq<char>, class: Seq<char>) -> Seq<char> {
    "<span class='label'>"@ + label + "</span>\n                        <span class='"@ + class
        + "'>"@
}

spec fn row_gap() -> Seq<char> {
    "\n                    </div>\n                    <div class='connection-row'>\n                        "@
}

proof fn lemma_user_label()
    ensures
        CARD_USER@ == "</span>\n                </div>\n                <div class='connection-body'>\n                    <div class='connection-row'>\n                        "@
            + row_start("User:"@, "value"@),
{
    reveal_strlit("</span>\n                </div>\n                <div class='connection-body'>\n                    <div class='connection-row'>\n                        <span class='label'>User:</span>\n                        <span class='value'>");
    reveal_strlit("</span>\n                </div>\n                <div class='connection-body'>\n                    <div class='connection-row'>\n                        ");
    reveal_strlit("<span class='label'>");
    reveal_strlit("User:");
    reveal_strlit("</span>\n                        <span class='");
    reveal_strlit("value");
    reveal_strlit("'>");
    assert(CARD_USER@ =~= "</span>\n                </div>\n                <div class='connection-body'>\n                    <div class='connection-row'>\n                        "@
        + row_start("User:"@, "value"@));
}

proof fn lemma_bastion_label()
    ensures
        CARD_BASTION@ == "</span>"@ + (row_gap() + row_start("Bastion:"@, "value"@)),
        CARD_BASTION@ == "</span>"@ + row_gap() + row_start("Bastion:"@, "value"@),
{
    reveal_strlit("</span>\n                    </div>\n                    <div class='connection-row'>\n                        <span class='label'>Bastion:</span>\n                        <span class='value'>");
    reveal_strlit("\n                    </div>\n                    <div class='connection-row'>\n                        ");
    reveal_strlit("</span>");
    reveal_strlit("<span class='label'>");
    reveal_strlit("Bastion:");
    reveal_strlit("</span>\n                        <span class='");
    reveal_strlit("value");
    reveal_strlit("'>");
    assert(CARD_BASTION@ =~= "</span>"@ + (row_gap() + row_start("Bastion:"@, "value"@)));
}

proof fn lemma_reverse_label()
    ensures
        CARD_REVERSE_PORT@ == "</span>"@ + (row_gap() + row_start(
            "Reverse Port:"@,
            "value highlight"@,
        )),
        CARD_REVERSE_PORT@ == "</span>"@ + row_gap() + row_start("Reverse Port:"@, "value highlight"@),
{
    reveal_strlit("</span>\n                    </div>\n                    <div class='connection-row'>\n                        <span class='label'>Reverse Port:</span>\n                        <span class='value highlight'>");
    reveal_strlit("\n                    </div>\n                    <div class='connection-row'>\n                        ");
    reveal_strlit("</span>");
    reveal_strlit("<span class='label'>");
    reveal_strlit("Reverse Port:");
    reveal_strlit("</span>\n                        <span class='");
    reveal_strlit("value highlight");
    reveal_strlit("'>");
    assert(CARD_REVERSE_PORT@ =~= "</span>"@ + (row_gap() + row_start(
        "Reverse Port:"@,
        "value highlight"@,
    )));
}

proof fn lemma_local_label()
    ensures
        CARD_LOCAL@ == "</span>"@ + (row_gap() + row_start("Local:"@, "value"@)),
        CARD_LOCAL@ == "</span>"@ + row_gap() + row_start("Local:"@, "value"@),
{
    reveal_strlit("</span>\n                    </div>\n                    <div class='connection-row'>\n                        <span class='label'>Local:</span>\n                        <span class='value'>");
    reveal_strlit("\n                    </div>\n                    <div class='connection-row'>\n                        ");
    reveal_strlit("</span>");
    reveal_strlit("<span class='label'>");
    reveal_strlit("Local:");
    reveal_strlit("</span>\n                        <span class='");
    reveal_strlit("value");
    reveal_strlit("'>");
    assert(CARD_LOCAL@ =~= "</span>"@ + (row_gap() + row_start("Local:"@, "value"@)));
}

proof fn lemma_status_label()
    ensures
        CARD_STATUS_ROW@ == "</span>"@ + (row_gap() + row_start("Status:"@, "value"@)),
        CARD_STATUS_ROW@ == "</span>"@ + row_gap() + row_start("Status:"@, "value"@),
        CARD_END@ == "</span>"@ + "\n                    </div>\n                </div>\n            </div>\n            "@,
{
    reveal_strlit("</span>\n                    </div>\n                    <div class='connection-row'>\n                        <span class='label'>Status:</span>\n                        <span class='value'>");
    reveal_strlit("\n                    </div>\n                    <div class='connection-row'>\n                        ");
    reveal_strlit("</span>");
    reveal_strlit("<span class='label'>");
    reveal_strlit("Status:");
    reveal_strlit("</span>\n                        <span class='");
    reveal_strlit("value");
    reveal_strlit("'>");
    reveal_strlit("</span>\n                    </div>\n                </div>\n            </div>\n            ");
    reveal_strlit("\n                    </div>\n                </div>\n            </div>\n            ");
    assert(CARD_STATUS_ROW@ =~= "</span>"@ + (row_gap() + row_start("Status:"@, "value"@)));
    assert(CARD_END@ =~= "</span>"@ + "\n                    </div>\n                </div>\n            </div>\n            "@);
}

/// Each connection card shows, in its labelled rows, the connection's
/// user; its bastion as `host:bastion_port`; its reverse port; its local
/// end as `bind:local_port`; and its status.
pub proof fn lemma_card_rows(c: ConnectionView)
    ensures
        contains(connection_card(c), card_row("User:"@, "value"@, c.user)),
        contains(
            connection_card(c),
            card_row("Bastion:"@, "value"@, c.bastion_host + ":"@ + decimal(c.bastion_port as nat)),
        ),
        contains(
            connection_card(c),
            card_row("Reverse Port:"@, "value highlight"@, decimal(c.remote_port as nat)),
        ),
        contains(
            connection_card(c),
            card_row("Local:"@, "value"@, c.local_bind + ":"@ + decimal(c.local_port as nat)),
        ),
        contains(connection_card(c), card_row("Status:"@, "value"@, c.status)),
{
    lemma_user_label();
    lemma_bastion_label();
    lemma_reverse_label();
    lemma_local_label();
    lemma_status_label();
    let close = "</span>"@;
    let gap = row_gap();
    let pid = decimal(c.pid as nat);
    let bp = decimal(c.bastion_port as nat);
    let rp = decimal(c.remote_port as nat);
    let lp = decimal(c.local_port as nat);
    assert(CARD_BASTION_PORT@ == ":"@);
    assert(CARD_LOCAL_PORT@ == ":"@);
    // The card, built up one piece at a time: `a{n}` holds its first n pieces.
    let a4 = CARD_STATUS@ + c.status + CARD_PID@ + pid;
    let a5 = a4 + CARD_USER@;
    let a6 = a5 + c.user;
    let a7 = a6 + CARD_BASTION@;
    let a8 = a7 + c.bastion_host;
    let a9 = a8 + CARD_BASTION_PORT@;
    let a10 = a9 + bp;
    let a11 = a10 + CARD_REVERSE_PORT@;
    let a12 = a11 + rp;
    let a13 = a12 + CARD_LOCAL@;
    let a14 = a13 + c.local_bind;
    let a15 = a14 + CARD_LOCAL_PORT@;
    let a16 = a15 + lp;
    let a17 = a16 + CARD_STATUS_ROW@;
    let a18 = a17 + c.status;
    let a19 = a18 + CARD_END@;
    assert(connection_card(c) == a19);
    let user_row = card_row("User:"@, "value"@, c.user);
    lemma_row_between(
        a4,
        "</span>\n                </div>\n                <div class='connection-body'>\n                    <div class='connection-row'>\n                        "@,
        row_start("User:"@, "value"@),
        c.user,
        close,
        gap + row_start("Bastion:"@, "value"@),
    );
    lemma_contains_extend(a7, user_row, c.bastion_host);
    lemma_contains_extend(a8, user_row, CARD_BASTION_PORT@);
    lemma_contains_extend(a9, user_row, bp);
    lemma_contains_extend(a10, user_row, CARD_REVERSE_PORT@);
    lemma_contains_extend(a11, user_row, rp);
    lemma_contains_extend(a12, user_row, CARD_LOCAL@);
    lemma_contains_extend(a13, user_row, c.local_bind);
    lemma_contains_extend(a14, user_row, CARD_LOCAL_PORT@);
    lemma_contains_extend(a15, user_row, lp);
    lemma_contains_extend(a16, user_row, CARD_STATUS_ROW@);
    lemma_contains_extend(a17, user_row, c.status);
    lemma_contains_extend(a18, user_row, CARD_END@);
    let bastion_row = card_row("Bastion:"@, "value"@, c.bastion_host + ":"@ + bp);
    lemma_row_between3(
        a6,
        close + gap,
        row_start("Bastion:"@, "value"@),
        c.bastion_host,
        CARD_BASTION_PORT@,
        bp,
        close,
        gap + row_start("Reverse Port:"@, "value highlight"@),
    );
    lemma_contains_extend(a11, bastion_row, rp);
    lemma_contains_extend(a12, bastion_row, CARD_LOCAL@);
    lemma_contains_extend(a13, bastion_row, c.local_bind);
    lemma_contains_extend(a14, bastion_row, CARD_LOCAL_PORT@);
    lemma_contains_extend(a15, bastion_row, lp);
    lemma_contains_extend(a16, bastion_row, CARD_STATUS_ROW@);
    lemma_contains_extend(a17, bastion_row, c.status);
    lemma_contains_extend(a18, bastion_row, CARD_END@);
    let reverse_row = card_row("Reverse Port:"@, "value highlight"@, rp);
    lemma_row_between(
        a10,
        close + gap,
        row_start("Reverse Port:"@, "value highlight"@),
        rp,
        close,
        gap + row_start("Local:"@, "value"@),
    );
    lemma_contains_extend(a13, reverse_row, c.local_bind);
    lemma_contains_extend(a14, reverse_row, CARD_LOCAL_PORT@);
    lemma_contains_extend(a15, reverse_row, lp);
    lemma_contains_extend(a16, reverse_row, CARD_STATUS_ROW@);
    lemma_contains_extend(a17, reverse_row, c.status);
    lemma_contains_extend(a18, reverse_row, CARD_END@);
    let local_row = card_row("Local:"@, "value"@, c.local_bind + ":"@ + lp);
    lemma_row_between3(
        a12,
        close + gap,
        row_start("Local:"@, "value"@),
        c.local_bind,
        CARD_LOCAL_PORT@,
        lp,
        close,
        gap + row_start("Status:"@, "value"@),
    );
    lemma_contains_extend(a17, local_row, c.status);
    lemma_contains_extend(a18, local_row, CARD_END@);
    lemma_row_between(
        a16,
        close + gap,
        row_start("Status:"@, "value"@),
        c.status,
        close,
        "\n                    </div>\n                </div>\n            </div>\n            "@,
    );
}

proof fn lemma_record_listener_entries(
    a: Map<u32, u16>,
    b: Map<u16, u32>,
    pids: Seq<u32>,
    port: u16,
    pid: u32,
    q: u16,
)
    ensures
        record_listener(a, b, pids, port).0.contains_key(pid) <==> a.contains_key(pid)
            || pids.contains(pid),
        record_listener(a, b, pids, port).0.contains_key(pid) ==> record_listener(
            a,
            b,
            pids,
            port,
        ).0[pid] == if pids.contains(pid) {
            port
        } else {
            a[pid]
        },
        record_listener(a, b, pids, port).1.contains_key(q) <==> b.contains_key(q) || (q == port
            && pids.len() > 0),
        record_listener(a, b, pids, port).1.contains_key(q) ==> record_listener(
            a,
            b,
            pids,
            port,
        ).1[q] == if b.contains_key(q) {
            b[q]
        } else {
            pids[0]
        },
    decreases pids.len(),
{
    if pids.len() > 0 {
        let prev = pids.drop_last();
        lemma_record_listener_entries(a, b, prev, port, pid, q);
        assert(pids[pids.len() - 1] == pids.last());
        if prev.contains(pid) {
            let k = choose|k: int| 0 <= k < prev.len() && prev[k] == pid;
            assert(pids[k] == pid);
        }
        if pids.contains(pid) {
            let k = choose|k: int| 0 <= k < pids.len() && pids[k] == pid;
            if k < prev.len() {
                assert(prev[k] == pid);
            }
        }
        if prev.len() > 0 {
            assert(prev[0] == pids[0]);
        }
    }
}

proof fn lemma_line_lists_listener(line: Seq<char>, port: u16, pid: u32)
    ensures
        line_lists_listener(line, port, pid) <==> listen_port_of_line(
            line,
            regex_captures(LISTEN_ADDR_PATTERN@, line),
        ) == Some(port) && pids_in(regex_captures_all(SSHD_PID_PATTERN@, line)).contains(pid),
{
    lemma_listen_port_of_line_shows(line, regex_captures(LISTEN_ADDR_PATTERN@, line), port);
}

proof fn lemma_listen_scan_pid(ls: Seq<Seq<char>>, pid: u32)
    ensures
        listen_scan(ls).0.contains_key(pid) <==> exists|j: int, port: u16|
            0 <= j < ls.len() && #[trigger] line_lists_listener(ls[j], port, pid),
        listen_scan(ls).0.contains_key(pid) ==> exists|j: int|
            0 <= j < ls.len() && #[trigger] line_lists_listener(ls[j], listen_scan(ls).0[pid], pid)
                && forall|i: int, port: u16|
                j < i < ls.len() ==> !#[trigger] line_lists_listener(ls[i], port, pid),
    decreases ls.len(),
{
    if ls.len() > 0 {
        let prev_ls = ls.drop_last();
        let line = ls.last();
        let n = ls.len() - 1;
        lemma_listen_scan_pid(prev_ls, pid);
        let (a, b, ports) = listen_scan(prev_ls);
        let a2 = listen_scan(ls).0;
        assert(ls[n] == line);
        assert forall|i: int| 0 <= i < n implies ls[i] == prev_ls[i] by {}
        let caps = regex_captures(LISTEN_ADDR_PATTERN@, line);
        let pids = pids_in(regex_captures_all(SSHD_PID_PATTERN@, line));
        let on_last = exists|port: u16| #[trigger] line_lists_listener(ls[n], port, pid);
        assert forall|port: u16| #[trigger] line_lists_listener(ls[n], port, pid) <==> listen_port_of_line(line, caps) == Some(port) && pids.contains(pid) by {
            lemma_line_lists_listener(line, port, pid);
        }
        if exists|j: int, port: u16| 0 <= j < prev_ls.len() && #[trigger] line_lists_listener(prev_ls[j], port, pid) {
            let (j, port) = choose|j: int, port: u16| 0 <= j < prev_ls.len() && #[trigger] line_lists_listener(prev_ls[j], port, pid);
            assert(line_lists_listener(ls[j], port, pid));
        }
        if exists|j: int, port: u16| 0 <= j < ls.len() && #[trigger] line_lists_listener(ls[j], port, pid) {
            let (j, port) = choose|j: int, port: u16| 0 <= j < ls.len() && #[trigger] line_lists_listener(ls[j], port, pid);
            if j < n {
                assert(line_lists_listener(prev_ls[j], port, pid));
            }
        }
        match listen_port_of_line(line, caps) {
            None => {
                assert(a2 == a);
                assert(!on_last);
                if a.contains_key(pid) {
                    let j = choose|j: int|
                        0 <= j < prev_ls.len() && #[trigger] line_lists_listener(prev_ls[j], a[pid], pid)
                            && forall|i: int, port: u16|
                            j < i < prev_ls.len() ==> !#[trigger] line_lists_listener(prev_ls[i], port, pid);
                    assert(line_lists_listener(ls[j], a2[pid], pid));
                    assert forall|i: int, port: u16| j < i < ls.len() implies !#[trigger] line_lists_listener(ls[i], port, pid) by {
                        if i < n {
                            assert(!line_lists_listener(prev_ls[i], port, pid));
                        }
                    }
                }
            },
            Some(q) => {
                lemma_record_listener_entries(a, b, pids, q, pid, q);
                if pids.contains(pid) {
                    assert(a2[pid] == q);
                    assert(line_lists_listener(ls[n], q, pid));
                } else if a.contains_key(pid) {
                    assert(!on_last);
                    assert(a2[pid] == a[pid]);
                    let j = choose|j: int|
                        0 <= j < prev_ls.len() && #[trigger] line_lists_listener(prev_ls[j], a[pid], pid)
                            && forall|i: int, port: u16|
                            j < i < prev_ls.len() ==> !#[trigger] line_lists_listener(prev_ls[i], port, pid);
                    assert(line_lists_listener(ls[j], a2[pid], pid));
                    assert forall|i: int, port: u16| j < i < ls.len() implies !#[trigger] line_lists_listener(ls[i], port, pid) by {
                        if i < n {
                            assert(!line_lists_listener(prev_ls[i], port, pid));
                        }
                    }
                }
            },
        }
    }
}

proof fn lemma_listen_scan_port(ls: Seq<Seq<char>>, port: u16)
    ensures
        listen_scan(ls).1.contains_key(port) <==> exists|j: int, pid: u32|
            0 <= j < ls.len() && #[trigger] line_lists_listener(ls[j], port, pid),
        listen_scan(ls).1.contains_key(port) ==> exists|j: int|
            0 <= j < ls.len() && #[trigger] line_lists_listener(ls[j], port, listen_scan(ls).1[port])
                && pids_in(regex_captures_all(SSHD_PID_PATTERN@, ls[j]))[0] == listen_scan(ls).1[port]
                && forall|i: int, pid: u32|
                0 <= i < j ==> !#[trigger] line_lists_listener(ls[i], port, pid),
    decreases ls.len(),
{
    if ls.len() > 0 {
        let prev_ls = ls.drop_last();
        let line = ls.last();
        let n = ls.len() - 1;
        lemma_listen_scan_port(prev_ls, port);
        let (a, b, ports) = listen_scan(prev_ls);
        let b2 = listen_scan(ls).1;
        assert(ls[n] == line);
        assert forall|i: int| 0 <= i < n implies ls[i] == prev_ls[i] by {}
        let caps = regex_captures(LISTEN_ADDR_PATTERN@, line);
        let pids = pids_in(regex_captures_all(SSHD_PID_PATTERN@, line));
        assert forall|pid: u32| #[trigger] line_lists_listener(ls[n], port, pid) <==> listen_port_of_line(line, caps) == Some(port) && pids.contains(pid) by {
            lemma_line_lists_listener(line, port, pid);
        }
        if exists|j: int, pid: u32| 0 <= j < prev_ls.len() && #[trigger] line_lists_listener(prev_ls[j], port, pid) {
            let (j, pid) = choose|j: int, pid: u32| 0 <= j < prev_ls.len() && #[trigger] line_lists_listener(prev_ls[j], port, pid);
            assert(line_lists_listener(ls[j], port, pid));
        }
        if exists|j: int, pid: u32| 0 <= j < ls.len() && #[trigger] line_lists_listener(ls[j], port, pid) {
            let (j, pid) = choose|j: int, pid: u32| 0 <= j < ls.len() && #[trigger] line_lists_listener(ls[j], port, pid);
            if j < n {
                assert(line_lists_listener(prev_ls[j], port, pid));
            }
        }
        if b.contains_key(port) {
            let j = choose|j: int|
                0 <= j < prev_ls.len() && #[trigger] line_lists_listener(prev_ls[j], port, b[port])
                    && pids_in(regex_captures_all(SSHD_PID_PATTERN@, prev_ls[j]))[0] == b[port]
                    && forall|i: int, pid: u32|
                    0 <= i < j ==> !#[trigger] line_lists_listener(prev_ls[i], port, pid);
            assert(line_lists_listener(ls[j], port, b[port]));
            assert forall|i: int, pid: u32| 0 <= i < j implies !#[trigger] line_lists_listener(ls[i], port, pid) by {
                assert(!line_lists_listener(prev_ls[i], port, pid));
            }
        }
        match listen_port_of_line(line, caps) {
            None => {
                assert(b2 == b);
            },
            Some(q) => {
                lemma_record_listener_entries(a, b, pids, q, 0, port);
                if !b.contains_key(port) && q == port && pids.len() > 0 {
                    assert(b2[port] == pids[0]);
                    assert(pids.contains(pids[0]));
                    assert(line_lists_listener(ls[n], port, pids[0]));
                    assert forall|i: int, pid: u32| 0 <= i < n implies !#[trigger] line_lists_listener(ls[i], port, pid) by {
                        assert(!line_lists_listener(prev_ls[i], port, pid));
                    }
                }
            },
        }
    }
}

/// The pid-to-port table that `ss -tlnpH` output gives holds a pid
/// exactly when a line showing a reverse-tunnel listener (see
/// `listener_shows_port`) names that sshd pid, and its port is that of
/// the last such line. The port-to-pid table holds a port exactly when
/// some line shows a listener on it naming an sshd pid, and its pid is the
/// first pid named on the first such line.
pub proof fn lemma_listener_tables_from_lines(text: Seq<char>, pid: u32, port: u16)
    requires
        regex_compiles(LISTEN_ADDR_PATTERN@),
        regex_compiles(SSHD_PID_PATTERN@),
    ensures
        listening_ports(text).0.contains_key(pid) <==> exists|j: int, p: u16|
            0 <= j < lines(text).len() && #[trigger] line_lists_listener(lines(text)[j], p, pid),
        listening_ports(text).0.contains_key(pid) ==> exists|j: int|
            0 <= j < lines(text).len() && #[trigger] line_lists_listener(
                lines(text)[j],
                listening_ports(text).0[pid],
                pid,
            ) && forall|i: int, p: u16|
                j < i < lines(text).len() ==> !#[trigger] line_lists_listener(lines(text)[i], p, pid),
        listening_ports(text).1.contains_key(port) <==> exists|j: int, q: u32|
            0 <= j < lines(text).len() && #[trigger] line_lists_listener(lines(text)[j], port, q),
        listening_ports(text).1.contains_key(port) ==> exists|j: int|
            0 <= j < lines(text).len() && #[trigger] line_lists_listener(
                lines(text)[j],
                port,
                listening_ports(text).1[port],
            ) && pids_in(regex_captures_all(SSHD_PID_PATTERN@, lines(text)[j]))[0]
                == listening_ports(text).1[port] && forall|i: int, q: u32|
                0 <= i < j ==> !#[trigger] line_lists_listener(lines(text)[i], port, q),
{
    lemma_listen_scan_pid(lines(text), pid);
    lemma_listen_scan_port(lines(text), port);
}

/// The lines of `ls` that show a reverse-tunnel listener on `port` (see
/// `listener_shows_port`).
pub open spec fn listener_lines(ls: Seq<Seq<char>>, port: u16) -> Seq<Seq<char>> {
    ls.filter(|l: Seq<char>| listener_shows_port(l, regex_captures(LISTEN_ADDR_PATTERN@, l), port))
}

proof fn lemma_listen_scan_count(ls: Seq<Seq<char>>, port: u16)
    ensures
        listen_scan(ls).2.to_multiset().count(port) == listener_lines(ls, port).len(),
    decreases ls.len(),
{
    if ls.len() == 0 {
        reveal(Seq::filter);
        assert(listen_scan(ls).2.to_multiset() =~= vstd::multiset::Multiset::empty());
    } else {
        let prev_ls = ls.drop_last();
        let line = ls.last();
        lemma_listen_scan_count(prev_ls, port);
        let caps = regex_captures(LISTEN_ADDR_PATTERN@, line);
        lemma_listen_port_of_line_shows(line, caps, port);
        reveal(Seq::filter);
        assert(listener_lines(ls, port) == if listener_shows_port(line, caps, port) {
            listener_lines(prev_ls, port).push(line)
        } else {
            listener_lines(prev_ls, port)
        });
        let prev = listen_scan(prev_ls).2;
        match listen_port_of_line(line, caps) {
            None => {},
            Some(q) => {
                lemma_listen_port_of_line_shows(line, caps, q);
                assert(listen_scan(ls).2 == prev.push(q));
                assert(prev.push(q).to_multiset() == prev.to_multiset().insert(q));
            },
        }
    }
}

/// Each tunnel port comes in the port list that `ss -tlnpH` output gives
/// as many times as lines of the output show a reverse-tunnel listener on
/// it (see `listener_shows_port`): a port that sshd listens on twice, say
/// on IPv4 and on IPv6, is listed twice.
pub proof fn lemma_tunnel_port_count(text: Seq<char>, port: u16)
    requires
        regex_compiles(LISTEN_ADDR_PATTERN@),
        regex_compiles(SSHD_PID_PATTERN@),
    ensures
        listening_ports(text).2.to_multiset().count(port) == listener_lines(lines(text), port).len(),
{
    let p = listen_scan(lines(text)).2;
    lemma_listen_scan_count(lines(text), port);
    lemma_ascending(p);
}

/// The three tables agree: every pid's port has an owner recorded, every
/// port's owner has a port recorded, every recorded port is in the list,
/// and every listed port is a tunnel port.
pub open spec fn tables_agree(a: Map<u32, u16>, b: Map<u16, u32>, ports: Seq<u16>) -> bool {
    &&& forall|p: u32| #[trigger] a.contains_key(p) ==> b.contains_key(a[p]) && ports.contains(a[p])
    &&& forall|q: u16| #[trigger] b.contains_key(q) ==> a.contains_key(b[q]) && ports.contains(q)
    &&& forall|i: int| 0 <= i < ports.len() ==> is_tunnel_port(#[trigger] ports[i])
}

proof fn lemma_record_one_agrees(
    a: Map<u32, u16>,
    b: Map<u16, u32>,
    ports: Seq<u16>,
    pid: u32,
    port: u16,
)
    requires
        tables_agree(a, b, ports),
        ports.contains(port),
    ensures
        tables_agree(
            a.insert(pid, port),
            if b.contains_key(port) {
                b
            } else {
                b.insert(port, pid)
            },
            ports,
        ),
{
    let a2 = a.insert(pid, port);
    let b2 = if b.contains_key(port) {
        b
    } else {
        b.insert(port, pid)
    };
    assert(a2.contains_key(pid));
    assert(b2.contains_key(port));
    assert forall|p: u32| #[trigger] a2.contains_key(p) implies b2.contains_key(a2[p])
        && ports.contains(a2[p]) by {
        if p != pid {
            assert(a.contains_key(p));
        }
    }
    assert forall|q: u16| #[trigger] b2.contains_key(q) implies a2.contains_key(b2[q])
        && ports.contains(q) by {
        if q != port || b.contains_key(port) {
            assert(b.contains_key(q));
            assert(a.contains_key(b[q]));
        }
    }
}

proof fn lemma_record_listener_agrees(
    a: Map<u32, u16>,
    b: Map<u16, u32>,
    ports: Seq<u16>,
    pids: Seq<u32>,
    port: u16,
)
    requires
        tables_agree(a, b, ports),
        ports.contains(port),
    ensures
        tables_agree(record_listener(a, b, pids, port).0, record_listener(a, b, pids, port).1, ports),
    decreases pids.len(),
{
    if pids.len() > 0 {
        lemma_record_listener_agrees(a, b, ports, pids.drop_last(), port);
        let (a1, b1) = record_listener(a, b, pids.drop_last(), port);
        lemma_record_one_agrees(a1, b1, ports, pids.last(), port);
    }
}

proof fn lemma_listen_scan_agrees(ls: Seq<Seq<char>>)
    ensures
        tables_agree(listen_scan(ls).0, listen_scan(ls).1, listen_scan(ls).2),
    decreases ls.len(),
{
    if ls.len() == 0 {
        assert(Map::<u32, u16>::empty().is_empty());
        assert(Map::<u16, u32>::empty().is_empty());
    } else {
        lemma_listen_scan_agrees(ls.drop_last());
        let (a, b, ports) = listen_scan(ls.drop_last());
        let line = ls.last();
        match listen_port_of_line(line, regex_captures(LISTEN_ADDR_PATTERN@, line)) {
            None => {},
            Some(port) => {
                let ports2 = ports.push(port);
                assert(ports2[ports.len() as int] == port);
                assert forall|x: u16| ports.contains(x) implies ports2.contains(x) by {
                    let k = choose|k: int| 0 <= k < ports.len() && ports[k] == x;
                    assert(ports2[k] == x);
                }
                assert(tables_agree(a, b, ports2));
                lemma_record_listener_agrees(
                    a,
                    b,
                    ports2,
                    pids_in(regex_captures_all(SSHD_PID_PATTERN@, line)),
                    port,
                );
            },
        }
    }
}

/// The tables that `ss -tlnpH` output gives agree with each other (see
/// `tables_agree`): in particular port-to-pid is empty exactly when
/// pid-to-port is, and every port found is above 1023.
pub proof fn lemma_listening_tables_agree(text: Seq<char>)
    ensures
        tables_agree(listening_ports(text).0, listening_ports(text).1, listening_ports(text).2),
{
    if regex_compiles(LISTEN_ADDR_PATTERN@) && regex_compiles(SSHD_PID_PATTERN@) {
        let (a, b, p) = listen_scan(lines(text));
        lemma_listen_scan_agrees(lines(text));
        lemma_ascending(p);
        let q = ascending(p);
        assert forall|x: u16| p.contains(x) <==> q.contains(x) by {
            assert(p.to_multiset().count(x) == q.to_multiset().count(x));
        }
        assert forall|i: int| 0 <= i < q.len() implies is_tunnel_port(#[trigger] q[i]) by {
            assert(q.contains(q[i]));
            let k = choose|k: int| 0 <= k < p.len() && p[k] == q[i];
        }
    } else {
        assert(Map::<u32, u16>::empty().is_empty());
        assert(Map::<u16, u32>::empty().is_empty());
    }
}

/// The tables from optional `ss -tlnpH` output agree (see `tables_agree`).
pub proof fn lemma_listening_from_agrees(o: Option<Seq<u8>>)
    ensures
        tables_agree(listening_from(o).0, listening_from(o).1, listening_from(o).2),
{
    match o {
        Some(b) => lemma_listening_tables_agree(utf8_lossy(b)),
        None => {
            assert(Map::<u32, u16>::empty().is_empty());
            assert(Map::<u16, u32>::empty().is_empty());
        },
    }
}

/// No tunnel session that `ps aux` output shows is an interactive one.
pub proof fn lemma_sessions_not_interactive(text: Seq<char>)
    ensures
        forall|k: int|
            0 <= k < tunnel_sessions(text).len() ==> !is_interactive(
                #[trigger] tunnel_sessions(text)[k].2,
            ),
{
    lemma_sessions_in_not_interactive(lines(text));
}

proof fn lemma_sessions_in_not_interactive(ls: Seq<Seq<char>>)
    ensures
        forall|k: int| 0 <= k < sessions_in(ls).len() ==> !is_interactive(#[trigger] sessions_in(ls)[k].2),
    decreases ls.len(),
{
    if ls.len() > 0 {
        lemma_sessions_in_not_interactive(ls.drop_last());
        let prev = sessions_in(ls.drop_last());
        let cur = sessions_in(ls);
        match session_of_line(ls.last()) {
            Some(t) => {
                assert(!is_interactive(t.2));
                assert(cur == prev.push(t));
                assert forall|k: int| 0 <= k < cur.len() implies !is_interactive(#[trigger] cur[k].2) by {
                    if k < prev.len() {
                        assert(cur[k] == prev[k]);
                    }
                }
            },
            None => {
                assert(cur == prev);
            },
        }
    }
}

/// Some line of `ls` shows the tunnel session `s` (see
/// `line_shows_session`).
pub open spec fn shown_by_some_line(ls: Seq<Seq<char>>, s: (u32, Seq<char>, Seq<char>)) -> bool {
    exists|j: int| 0 <= j < ls.len() && #[trigger] line_shows_session(ls[j], s)
}

/// Every tunnel session that `ps aux` output yields comes from one of its
/// lines that shows it (see `line_shows_session`): in particular from a
/// line with an `"sshd:"` session, never from any other process.
pub proof fn lemma_sessions_come_from_sshd_lines(text: Seq<char>)
    ensures
        forall|k: int|
            0 <= k < tunnel_sessions(text).len() ==> shown_by_some_line(
                lines(text),
                #[trigger] tunnel_sessions(text)[k],
            ),
{
    lemma_sessions_in_from_lines(lines(text));
}

proof fn lemma_sessions_in_from_lines(ls: Seq<Seq<char>>)
    ensures
        forall|k: int|
            0 <= k < sessions_in(ls).len() ==> shown_by_some_line(ls, #[trigger] sessions_in(ls)[k]),
    decreases ls.len(),
{
    if ls.len() > 0 {
        let prev_ls = ls.drop_last();
        lemma_sessions_in_from_lines(prev_ls);
        let prev = sessions_in(prev_ls);
        let cur = sessions_in(ls);
        assert forall|k: int| 0 <= k < cur.len() implies shown_by_some_line(ls, #[trigger] cur[k]) by {
            if k < prev.len() {
                assert(cur[k] == prev[k]);
                assert(shown_by_some_line(prev_ls, prev[k]));
                let j = choose|j: int| 0 <= j < prev_ls.len() && #[trigger] line_shows_session(prev_ls[j], prev[k]);
                assert(ls[j] == prev_ls[j]);
                assert(line_shows_session(ls[j], cur[k]));
            } else {
                let t = session_of_line(ls.last());
                assert(t is Some);
                lemma_session_info_shown(ls.last());
                assert(cur[k] == t->0);
                assert(ls[ls.len() - 1] == ls.last());
                assert(line_shows_session(ls[ls.len() - 1], cur[k]));
            }
        }
    }
}

/// Lines `j1 < j2` of `ls` show the tunnel sessions `a` and `b`.
pub open spec fn shown_in_order(
    ls: Seq<Seq<char>>,
    a: (u32, Seq<char>, Seq<char>),
    b: (u32, Seq<char>, Seq<char>),
) -> bool {
    exists|j1: int, j2: int|
        0 <= j1 < j2 < ls.len() && #[trigger] line_shows_session(ls[j1], a)
            && #[trigger] line_shows_session(ls[j2], b)
}

proof fn lemma_sessions_in_complete_in_order(ls: Seq<Seq<char>>)
    ensures
        forall|j: int, t: (u32, Seq<char>, Seq<char>)|
            0 <= j < ls.len() && #[trigger] line_shows_session(ls[j], t) ==> sessions_in(ls).contains(t),
        forall|k1: int, k2: int|
            0 <= k1 < k2 < sessions_in(ls).len() ==> shown_in_order(
                ls,
                #[trigger] sessions_in(ls)[k1],
                #[trigger] sessions_in(ls)[k2],
            ),
    decreases ls.len(),
{
    if ls.len() > 0 {
        let prev_ls = ls.drop_last();
        let n = ls.len() - 1;
        lemma_sessions_in_complete_in_order(prev_ls);
        lemma_sessions_in_from_lines(prev_ls);
        let prev = sessions_in(prev_ls);
        let cur = sessions_in(ls);
        assert(ls[n] == ls.last());
        assert forall|i: int| 0 <= i < n implies ls[i] == prev_ls[i] by {}
        assert forall|x: (u32, Seq<char>, Seq<char>)| prev.contains(x) implies cur.contains(x) by {
            let k = choose|k: int| 0 <= k < prev.len() && prev[k] == x;
            match session_of_line(ls.last()) {
                Some(t) => {
                    assert(cur == prev.push(t));
                    assert(cur[k] == x);
                },
                None => {},
            }
        }
        assert forall|j: int, t: (u32, Seq<char>, Seq<char>)|
            0 <= j < ls.len() && #[trigger] line_shows_session(ls[j], t) implies cur.contains(t) by {
            if j < n {
                assert(line_shows_session(prev_ls[j], t));
                assert(prev.contains(t));
            } else {
                lemma_shown_session_taken(ls.last(), t);
                assert(cur == prev.push(t));
                assert(cur[prev.len() as int] == t);
            }
        }
        assert forall|k1: int, k2: int| 0 <= k1 < k2 < cur.len() implies shown_in_order(
            ls,
            #[trigger] cur[k1],
            #[trigger] cur[k2],
        ) by {
            if k2 < prev.len() {
                match session_of_line(ls.last()) {
                    Some(t) => {
                        assert(cur == prev.push(t));
                    },
                    None => {},
                }
                assert(cur[k1] == prev[k1]);
                assert(cur[k2] == prev[k2]);
                assert(shown_in_order(prev_ls, prev[k1], prev[k2]));
                let (j1, j2) = choose|j1: int, j2: int|
                    0 <= j1 < j2 < prev_ls.len() && #[trigger] line_shows_session(prev_ls[j1], prev[k1])
                        && #[trigger] line_shows_session(prev_ls[j2], prev[k2]);
                assert(line_shows_session(ls[j1], cur[k1]));
                assert(line_shows_session(ls[j2], cur[k2]));
            } else {
                let t = session_of_line(ls.last());
                assert(t is Some);
                assert(cur == prev.push(t->0));
                assert(cur[k1] == prev[k1]);
                assert(cur[k2] == t->0);
                lemma_session_info_shown(ls.last());
                assert(line_shows_session(ls[n], cur[k2]));
                assert(shown_by_some_line(prev_ls, prev[k1]));
                let j1 = choose|j: int| 0 <= j < prev_ls.len() && #[trigger] line_shows_session(prev_ls[j], prev[k1]);
                assert(line_shows_session(ls[j1], cur[k1]));
            }
        }
    }
}

/// Every tunnel session that a line of `ps aux` output shows (see
/// `line_shows_session`) is among the sessions taken from it, and the
/// sessions taken come in the order of the lines that show them.
pub proof fn lemma_sessions_complete_in_order(text: Seq<char>)
    ensures
        forall|j: int, t: (u32, Seq<char>, Seq<char>)|
            0 <= j < lines(text).len() && #[trigger] line_shows_session(lines(text)[j], t)
                ==> tunnel_sessions(text).contains(t),
        forall|k1: int, k2: int|
            0 <= k1 < k2 < tunnel_sessions(text).len() ==> shown_in_order(
                lines(text),
                #[trigger] tunnel_sessions(text)[k1],
                #[trigger] tunnel_sessions(text)[k2],
            ),
{
    lemma_sessions_in_complete_in_order(lines(text));
}

/// A `ps aux` line without an `"sshd:"` session never yields a tunnel
/// session, nor a tunnel connection, whatever ports the sshd pids own.
pub proof fn lemma_line_without_sshd_ignored(line: Seq<char>, ports: Map<u32, u16>)
    requires
        !contains(line, "sshd:"@),
    ensures
        session_of_line(line) is None,
        sshd_process_connection(line, ports) is None,
{
}

/// A connection taken from an sshd `ps aux` line is never for an
/// interactive session: the session text it reports holds neither `@pts`
/// nor `@notty`, and the rest of the record comes from the line and the
/// port its pid owns (see `sshd_line_shows_tunnel`).
pub proof fn lemma_sshd_connection_shown_by_line(line: Seq<char>, ports: Map<u32, u16>)
    ensures
        sshd_process_connection(line, ports) matches Some(c) ==> sshd_line_shows_tunnel(
            line,
            ports,
            c,
        ),
{
    if contains(line, "sshd:"@) {
        lemma_session_info_shown(line);
    }
}

proof fn lemma_program_word_mentions_ssh(w: Seq<char>)
    ensures
        is_ssh_program(w) ==> contains(w, "ssh"@),
{
    reveal_strlit("ssh");
    reveal_strlit("/ssh");
    reveal_strlit("autossh");
    if w == "ssh"@ {
        assert(w.subrange(0, 3) =~= "ssh"@);
        assert(occurs_at(w, "ssh"@, 0));
    } else if ends_with(w, "/ssh"@) {
        let i = w.len() - 3;
        assert(w.subrange(i, i + 3) =~= w.skip(w.len() - 4).subrange(1, 4));
        assert(w.subrange(i, i + 3) =~= "ssh"@);
        assert(occurs_at(w, "ssh"@, i));
    } else if contains(w, "autossh"@) {
        let i = choose|i: int| occurs_at(w, "autossh"@, i);
        assert(w.subrange(i + 4, i + 7) =~= w.subrange(i, i + 7).subrange(4, 7));
        assert(w.subrange(i + 4, i + 7) =~= "ssh"@);
        assert(occurs_at(w, "ssh"@, i + 4));
    }
}

/// A `ps aux` line that runs plain `ssh` (no `grep`): when word `k` is
/// `ssh` itself and no earlier word mentions ssh, the client's command
/// runs from that word on, and the line stands for the connection that
/// command sets up for the process of the line's pid and user.
pub proof fn lemma_plain_ssh_command(line: Seq<char>, k: int)
    requires
        !contains(line, "grep"@),
        0 <= k < words(line).len(),
        words(line)[k] == "ssh"@,
        forall|i: int| 0 <= i < k ==> !contains(#[trigger] words(line)[i], "ssh"@),
    ensures
        ssh_process_connection(line) == if words(line).len() < 2 {
            None
        } else {
            match parse_u32(words(line)[1]) {
                None => None,
                Some(pid) => ssh_command_connection(
                    pid,
                    words(line)[0],
                    join_words(words(line).skip(k)),
                ),
            }
        },
{
    let parts = words(line);
    lemma_words_occur(line);
    assert(contains(line, parts[k]));
    assert(is_ssh_program(parts[k]));
    assert forall|i: int| 0 <= i < k implies !is_ssh_program(#[trigger] parts[i]) by {
        lemma_program_word_mentions_ssh(parts[i]);
    }
    lemma_first_ssh_word_at(parts, k);
}

proof fn lemma_first_ssh_word_at(parts: Seq<Seq<char>>, k: int)
    requires
        0 <= k < parts.len(),
        is_ssh_program(parts[k]),
        forall|i: int| 0 <= i < k ==> !is_ssh_program(#[trigger] parts[i]),
    ensures
        first_ssh_word(parts) == Some(k),
    decreases parts.len(),
{
    if k == parts.len() - 1 {
        lemma_no_ssh_word(parts.drop_last());
        assert(parts.last() == parts[k]);
    } else {
        let p = parts.drop_last();
        assert forall|i: int| 0 <= i < k implies !is_ssh_program(#[trigger] p[i]) by {
            assert(p[i] == parts[i]);
        }
        assert(p[k] == parts[k]);
        lemma_first_ssh_word_at(p, k);
    }
}

proof fn lemma_no_ssh_word(parts: Seq<Seq<char>>)
    requires
        forall|i: int| 0 <= i < parts.len() ==> !is_ssh_program(#[trigger] parts[i]),
    ensures
        first_ssh_word(parts) is None,
    decreases parts.len(),
{
    if parts.len() > 0 {
        let p = parts.drop_last();
        assert forall|i: int| 0 <= i < p.len() implies !is_ssh_program(#[trigger] p[i]) by {
            assert(p[i] == parts[i]);
        }
        lemma_no_ssh_word(p);
        assert(parts.last() == parts[parts.len() - 1]);
    }
}

/// Connection `c` is the match of session `k` on the port its pid owns.
spec fn matched_by_pid(
    ss: Seq<(u32, Seq<char>, Seq<char>)>,
    by_pid: Map<u32, u16>,
    ips: Map<u32, Seq<char>>,
    c: ConnectionView,
    k: int,
) -> bool {
    0 <= k < ss.len() && by_pid.contains_key(ss[k].0) && c == session_connection(
        ss[k],
        ips,
        by_pid[ss[k].0],
    )
}

proof fn lemma_primary_match_source(
    ss: Seq<(u32, Seq<char>, Seq<char>)>,
    by_pid: Map<u32, u16>,
    ips: Map<u32, Seq<char>>,
    i: int,
) -> (k: int)
    requires
        0 <= i < primary_matches(ss, by_pid, ips).len(),
    ensures
        matched_by_pid(ss, by_pid, ips, primary_matches(ss, by_pid, ips)[i], k),
    decreases ss.len(),
{
    let prev = ss.drop_last();
    let r = primary_matches(ss, by_pid, ips);
    let pr = primary_matches(prev, by_pid, ips);
    let last = ss.last();
    assert(ss[ss.len() - 1] == last);
    if by_pid.contains_key(last.0) {
        assert(r == pr.push(session_connection(last, ips, by_pid[last.0])));
    } else {
        assert(r == pr);
    }
    if i < pr.len() {
        let k = lemma_primary_match_source(prev, by_pid, ips, i);
        assert(ss[k] == prev[k]);
        k
    } else {
        ss.len() - 1
    }
}

/// Every connection a refresh finds is a tunnel session from `ps` on a
/// tunnel port: its pid and user are those of a non-interactive session
/// that `ps aux` showed, its remote port is above 1023, it forwards to
/// port 22, and it is reported as connected.
pub proof fn lemma_refresh_finds_tunnels(
    listen: Option<Seq<u8>>,
    established: Option<Seq<u8>>,
    ps: Seq<u8>,
)
    ensures
        forall|i: int|
            0 <= i < refreshed_connections(listen, established, ps).len() ==> {
                let c = #[trigger] refreshed_connections(listen, established, ps)[i];
                let ss = tunnel_sessions(utf8_lossy(ps));
                &&& is_tunnel_port(c.remote_port)
                &&& c.local_port == 22
                &&& c.status == "Connected"@
                &&& exists|k: int|
                    0 <= k < ss.len() && #[trigger] ss[k].0 == c.pid && ss[k].1 == c.user
                        && !is_interactive(ss[k].2)
            },
{
    let (a, b, ports) = listening_from(listen);
    let ss = tunnel_sessions(utf8_lossy(ps));
    let ips = clients_from(established);
    let r = refreshed_connections(listen, established, ps);
    lemma_listening_from_agrees(listen);
    lemma_sessions_not_interactive(utf8_lossy(ps));
    assert(r == matched_connections(ss, a, b, ports, ips));
    if a.is_empty() && b.is_empty() {
        assert forall|i: int| 0 <= i < r.len() implies {
            let c = #[trigger] r[i];
            &&& is_tunnel_port(c.remote_port)
            &&& c.local_port == 22
            &&& c.status == "Connected"@
            &&& exists|k: int|
                0 <= k < ss.len() && #[trigger] ss[k].0 == c.pid && ss[k].1 == c.user
                    && !is_interactive(ss[k].2)
        } by {
            assert(r[i] == session_connection(ss[i], ips, ports[i]));
            assert(!is_interactive(ss[i].2));
        }
    } else {
        assert forall|i: int| 0 <= i < r.len() implies {
            let c = #[trigger] r[i];
            &&& is_tunnel_port(c.remote_port)
            &&& c.local_port == 22
            &&& c.status == "Connected"@
            &&& exists|k: int|
                0 <= k < ss.len() && #[trigger] ss[k].0 == c.pid && ss[k].1 == c.user
                    && !is_interactive(ss[k].2)
        } by {
            let k = lemma_primary_match_source(ss, a, ips, i);
            assert(a.contains_key(ss[k].0));
            assert(ports.contains(a[ss[k].0]));
            let j = choose|j: int| 0 <= j < ports.len() && ports[j] == a[ss[k].0];
            assert(is_tunnel_port(ports[j]));
            assert(!is_interactive(ss[k].2));
        }
    }
}

proof fn lemma_agree_empty_together(a: Map<u32, u16>, b: Map<u16, u32>, ports: Seq<u16>)
    requires
        tables_agree(a, b, ports),
    ensures
        a.is_empty() <==> b.is_empty(),
{
    if !a.is_empty() {
        let p = a.dom().choose();
        assert(a.dom().contains(p));
        assert(b.contains_key(a[p]));
        assert(b.dom().contains(a[p]));
    }
    if !b.is_empty() {
        let q = b.dom().choose();
        assert(b.dom().contains(q));
        assert(a.contains_key(b[q]));
        assert(a.dom().contains(b[q]));
    }
}

/// The pid-to-port table that `ss -tlnpH` output gives is empty exactly
/// when its port-to-pid inverse is: both come from the same `sshd` pids.
pub proof fn lemma_listening_tables_empty_together(text: Seq<char>)
    ensures
        listening_ports(text).0.is_empty() <==> listening_ports(text).1.is_empty(),
{
    lemma_listening_tables_agree(text);
    lemma_agree_empty_together(listening_ports(text).0, listening_ports(text).1, listening_ports(text).2);
}

/// A `ps aux` line of the sshd listener never stands for a tunnel, nor
/// for a tunnel session.
pub proof fn lemma_listener_line_ignored(line: Seq<char>, ports: Map<u32, u16>)
    requires
        contains(line, "[listener]"@),
    ensures
        sshd_process_connection(line, ports) is None,
        session_of_line(line) is None,
{
}

/// A `ps aux` line whose second word is not a pid never stands for a
/// tunnel, nor for a tunnel session.
pub proof fn lemma_line_without_pid_ignored(line: Seq<char>, ports: Map<u32, u16>)
    requires
        words(line).len() >= 2,
        parse_u32(words(line)[1]) is None,
    ensures
        sshd_process_connection(line, ports) is None,
        session_of_line(line) is None,
{
}

proof fn lemma_digit_char(d: nat)
    requires
        d < 10,
    ensures
        is_digit(digit_char(d)),
        digit_value(digit_char(d)) == d,
{
    assert(((d + 48) as u8) as int == d + 48);
}

proof fn lemma_decimal_digits(n: nat)
    ensures
        decimal(n).len() > 0,
        all_digits(decimal(n)),
        decimal_value(decimal(n)) == n,
    decreases n,
{
    lemma_digit_char(n % 10);
    if n < 10 {
        assert(n % 10 == n);
        assert(decimal(n).drop_last() =~= Seq::<char>::empty());
        assert(decimal_value(Seq::<char>::empty()) == 0);
    } else {
        lemma_decimal_digits(n / 10);
        let s = decimal(n);
        assert(s.last() == digit_char(n % 10));
        assert((n / 10) * 10 + n % 10 == n);
        assert(decimal_value(s) == decimal_value(s.drop_last()) * 10 + digit_value(s.last()));
        assert(s.drop_last() == decimal(n / 10));
        assert forall|i: int| 0 <= i < s.len() implies #[trigger] is_digit(s[i]) by {
            if i < s.len() - 1 {
                assert(s[i] == decimal(n / 10)[i]);
            }
        }
    }
}

/// The numeral a connection shows for a port reads back as that port: what
/// `{}` writes for a `u16`, `str::parse::<u16>` gives back.
pub proof fn lemma_port_numeral_reads_back(port: u16)
    ensures
        parse_u16(decimal(port as nat)) == Some(port),
{
    lemma_decimal_digits(port as nat);
    let s = decimal(port as nat);
    assert(is_digit(s[0]));
    assert(unsigned_digits(s) == s);
}

/// The list `get_connections` hands out has as many entries as
/// `get_connection_count` reports.
pub proof fn lemma_count_matches_list(m: SSHMonitor, list: Seq<Connection>)
    requires
        connection_views(list) == m@.connections,
    ensures
        list.len() == m@.connections.len(),
{
}

} // verus!
