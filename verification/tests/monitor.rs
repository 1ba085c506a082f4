use std::collections::HashMap;

use bastion_dashboard::models::{Connection, ConnectionStats};
use bastion_dashboard::ps_output::{
    collect_sessions, make_client_connection, parse_session_line, TunnelSession,
};
use bastion_dashboard::ss_output::{
    group1_text, parse_client_ips, parse_listening_ports, record_listener_pids, record_peer_pids,
};
use bastion_dashboard::ssh_monitor::{make_connection, RefreshError, SSHMonitor};

const SS_LISTEN_ROOT: &str = "\
LISTEN 0      128          0.0.0.0:22        0.0.0.0:*    users:((\"sshd\",pid=1,fd=3))
LISTEN 0      128          0.0.0.0:8951      0.0.0.0:*    users:((\"sshd\",pid=4848,fd=9))
LISTEN 0      128             [::]:8951         [::]:*    users:((\"sshd\",pid=4848,fd=10))
LISTEN 0      4096     127.0.0.53%lo:53      0.0.0.0:*    users:((\"systemd-resolve\",pid=500,fd=14))
LISTEN 0      128          0.0.0.0:3333      0.0.0.0:*    users:((\"sshd\",pid=5000,fd=9))
LISTEN 0      511          0.0.0.0:8080      0.0.0.0:*    users:((\"nginx\",pid=600,fd=6))
";

const SS_LISTEN_NO_ROOT: &str = "\
LISTEN 0      128          0.0.0.0:22        0.0.0.0:*
LISTEN 0      128          0.0.0.0:9000      0.0.0.0:*
LISTEN 0      128          0.0.0.0:8951      0.0.0.0:*
LISTEN 0      128          0.0.0.0:80        0.0.0.0:*
";

const SS_ESTABLISHED: &str = "\
ESTAB 0      0      172.17.0.2:22   203.0.113.5:51234 users:((\"sshd\",pid=4837,fd=4),(\"sshd\",pid=4848,fd=4))
ESTAB 0      0      172.17.0.2:22   198.51.100.7:40022 users:((\"sshd\",pid=4990,fd=4),(\"sshd\",pid=5000,fd=4))
ESTAB 0      0      172.17.0.2:443  198.51.100.9:50000 users:((\"nginx\",pid=600,fd=7))
";

const PS_AUX: &str = "\
USER         PID %CPU %MEM    VSZ   RSS TTY      STAT START   TIME COMMAND
root           1  0.0  0.0  12016  8212 ?        Ss   11:56   0:00 sshd: /usr/sbin/sshd -D -e [listener] 0 of 10-100 startups
root        4837  0.1  0.0  14428 10076 ?        Ss   18:36   0:00 sshd: bastion [priv]
bastion     4848  0.0  0.0  14688  6540 ?        S    18:36   0:00 sshd: bastion
bastion     4860  0.0  0.0  14788  6748 ?        S    18:36   0:00 sshd: bastion@pts/1
bastion     5000  0.0  0.0  14688  6540 ?        S    18:40   0:00 sshd: bastion
root        6000  0.0  0.0   6480  2304 pts/0    S+   18:41   0:00 grep sshd:
";

fn tunnel(pid: u32, user: &str, host: &str, port: u16) -> Connection {
    Connection {
        pid,
        user: user.to_string(),
        remote_bind: format!("*:{}", port),
        local_bind: "localhost:22".to_string(),
        remote_port: port,
        local_port: 22,
        bastion_host: host.to_string(),
        bastion_port: 22,
        command: format!("ssh -p {} root@<bastion-ip>", port),
        uptime: "running".to_string(),
        status: "Connected".to_string(),
    }
}

#[test]
fn test_skip_sshd_listener() {
    let monitor = SSHMonitor::new();
    let line = "root         1  0.0  0.0  12016  8212 pts/0    Ss+  11:56   0:00 sshd: /usr/sbin/sshd -D -e [listener] 0 of 10-100 startups";
    let listening_ports = std::collections::HashMap::new();

    let result = monitor.parse_sshd_process(line, &listening_ports);
    assert!(result.is_none(), "Should skip listener process");
}

#[test]
fn test_invalid_pid_line() {
    let monitor = SSHMonitor::new();
    let line = "user invalid_pid 0.0 0.0 1234 5678 ?";
    let listening_ports = std::collections::HashMap::new();

    let result = monitor.parse_sshd_process(line, &listening_ports);
    assert!(result.is_none(), "Should return None for invalid PID");
}

#[test]
fn sshd_session_with_tunnel_port_is_a_connection() {
    let monitor = SSHMonitor::with_timestamp(0);
    let line = "bastion   4848  0.0  0.0  14688  6540 ?        S    18:36   0:00 sshd: bastion";
    let mut ports = HashMap::new();
    ports.insert(4848u32, 8951u16);
    let conn = monitor.parse_sshd_process(line, &ports).unwrap();
    assert_eq!(conn, tunnel(4848, "bastion", "bastion", 8951));
}

#[test]
fn sshd_session_without_port_is_none() {
    let monitor = SSHMonitor::with_timestamp(0);
    let line = "bastion   4848  0.0  0.0  14688  6540 ?        S    18:36   0:00 sshd: bastion";
    let mut ports = HashMap::new();
    ports.insert(1u32, 8951u16);
    assert!(monitor.parse_sshd_process(line, &ports).is_none());
}

#[test]
fn sshd_pts_session_is_none() {
    let monitor = SSHMonitor::with_timestamp(0);
    let line = "bastion   4860  0.0  0.0  14788  6748 ?        S    18:36   0:00 sshd: bastion@pts/1";
    let mut ports = HashMap::new();
    ports.insert(4860u32, 8951u16);
    assert!(monitor.parse_sshd_process(line, &ports).is_none());
}

#[test]
fn sshd_priv_session_with_port_is_a_connection() {
    let monitor = SSHMonitor::with_timestamp(0);
    let line = "root      4837  0.1  0.0  14428 10076 ?        Ss   18:36   0:00 sshd: bastion [priv]";
    let mut ports = HashMap::new();
    ports.insert(4837u32, 2222u16);
    let conn = monitor.parse_sshd_process(line, &ports).unwrap();
    assert_eq!(conn.pid, 4837);
    assert_eq!(conn.user, "root");
    assert_eq!(conn.bastion_host, "bastion");
    assert_eq!(conn.status, "Connected");
}

#[test]
fn sshd_line_without_session_word_is_unknown() {
    let monitor = SSHMonitor::with_timestamp(0);
    let line = "bastion   77  0.0  0.0  14688  6540 ?        S    18:36   0:00 sshd:";
    let mut ports = HashMap::new();
    ports.insert(77u32, 4000u16);
    let conn = monitor.parse_sshd_process(line, &ports).unwrap();
    assert_eq!(conn.bastion_host, "unknown");
}

#[test]
fn listening_ports_as_root() {
    let (by_pid, by_port, ports) = parse_listening_ports(SS_LISTEN_ROOT);
    let mut want_by_pid = HashMap::new();
    want_by_pid.insert(4848u32, 8951u16);
    want_by_pid.insert(5000u32, 3333u16);
    let mut want_by_port = HashMap::new();
    want_by_port.insert(8951u16, 4848u32);
    want_by_port.insert(3333u16, 5000u32);
    assert_eq!(by_pid, want_by_pid);
    assert_eq!(by_port, want_by_port);
    assert_eq!(ports, vec![3333, 8951, 8951]);
}

#[test]
fn listening_ports_without_process_info() {
    let (by_pid, by_port, ports) = parse_listening_ports(SS_LISTEN_NO_ROOT);
    assert!(by_pid.is_empty());
    assert!(by_port.is_empty());
    assert_eq!(ports, vec![8951, 9000]);
}

#[test]
fn listening_ports_first_pid_of_a_port_and_last_port_of_a_pid() {
    let out = "\
LISTEN 0 128 0.0.0.0:4000 0.0.0.0:* users:((\"sshd\",pid=10,fd=9),(\"sshd\",pid=11,fd=9))
LISTEN 0 128 0.0.0.0:5000 0.0.0.0:* users:((\"sshd\",pid=10,fd=10))
";
    let (by_pid, by_port, ports) = parse_listening_ports(out);
    assert_eq!(by_pid.get(&10), Some(&5000));
    assert_eq!(by_pid.get(&11), Some(&4000));
    assert_eq!(by_port.get(&4000), Some(&10));
    assert_eq!(by_port.get(&5000), Some(&10));
    assert_eq!(ports, vec![4000, 5000]);
}

#[test]
fn non_listen_lines_are_ignored() {
    let out = "ESTAB 0 0 0.0.0.0:4000 0.0.0.0:* users:((\"sshd\",pid=10,fd=9))\n";
    let (by_pid, by_port, ports) = parse_listening_ports(out);
    assert!(by_pid.is_empty() && by_port.is_empty() && ports.is_empty());
}

#[test]
fn client_ips_first_peer_per_pid() {
    let ips = parse_client_ips(SS_ESTABLISHED);
    assert_eq!(ips.len(), 4);
    assert_eq!(ips.get(&4848).map(|s| s.as_str()), Some("203.0.113.5:51234"));
    assert_eq!(ips.get(&4837).map(|s| s.as_str()), Some("203.0.113.5:51234"));
    assert_eq!(ips.get(&5000).map(|s| s.as_str()), Some("198.51.100.7:40022"));
    assert_eq!(ips.get(&600), None);
}

#[test]
fn tunnel_sessions_from_ps() {
    let sessions = collect_sessions(PS_AUX);
    let got: Vec<(u32, String, String)> = sessions
        .into_iter()
        .map(|s| (s.pid, s.user, s.session_info))
        .collect();
    assert_eq!(
        got,
        vec![
            (4848, "bastion".to_string(), "bastion".to_string()),
            (5000, "bastion".to_string(), "bastion".to_string()),
        ]
    );
}

#[test]
fn session_line_priv_and_grep_are_skipped() {
    let priv_line: Vec<char> =
        "root 4837 0.1 0.0 14428 10076 ? Ss 18:36 0:00 sshd: bastion [priv]".chars().collect();
    assert!(parse_session_line(&priv_line).is_none());
    let grep_line: Vec<char> = "root 6000 0.0 0.0 6480 2304 pts/0 S+ 18:41 0:00 grep sshd:".chars().collect();
    assert!(parse_session_line(&grep_line).is_none());
    let notty: Vec<char> = "bob 7 0 0 1 1 ? S 1:00 0:00 sshd: bob@notty".chars().collect();
    assert!(parse_session_line(&notty).is_none());
}

#[test]
fn refresh_as_root_matches_by_pid() {
    let mut monitor = SSHMonitor::with_timestamp(1);
    let r = monitor.refresh_at(
        1708104000,
        Some(SS_LISTEN_ROOT.as_bytes()),
        Some(SS_ESTABLISHED.as_bytes()),
        Some(PS_AUX.as_bytes()),
    );
    assert_eq!(r, Ok(()));
    assert_eq!(monitor.last_update(), 1708104000);
    assert_eq!(
        monitor.get_connections(),
        vec![
            tunnel(4848, "bastion", "bastion (203.0.113.5:51234)", 8951),
            tunnel(5000, "bastion", "bastion (198.51.100.7:40022)", 3333),
        ]
    );
    assert_eq!(monitor.get_connection_count(), 2);
}

#[test]
fn refresh_without_root_matches_by_position() {
    let mut monitor = SSHMonitor::with_timestamp(1);
    let r = monitor.refresh_at(7, Some(SS_LISTEN_NO_ROOT.as_bytes()), None, Some(PS_AUX.as_bytes()));
    assert_eq!(r, Ok(()));
    assert_eq!(
        monitor.get_connections(),
        vec![tunnel(4848, "bastion", "bastion", 8951), tunnel(5000, "bastion", "bastion", 9000)]
    );
}

#[test]
fn refresh_with_more_sessions_than_ports() {
    let mut monitor = SSHMonitor::with_timestamp(1);
    let ss = "LISTEN 0 128 *:7000 *:*\n";
    monitor.refresh_at(7, Some(ss.as_bytes()), None, Some(PS_AUX.as_bytes())).unwrap();
    assert_eq!(monitor.get_connections(), vec![tunnel(4848, "bastion", "bastion", 7000)]);
}

#[test]
fn refresh_replaces_previous_connections() {
    let mut monitor = SSHMonitor::with_timestamp(1);
    monitor
        .refresh_at(2, Some(SS_LISTEN_ROOT.as_bytes()), None, Some(PS_AUX.as_bytes()))
        .unwrap();
    assert_eq!(monitor.get_connection_count(), 2);
    monitor.refresh_at(3, None, None, Some(PS_AUX.as_bytes())).unwrap();
    assert_eq!(monitor.get_connection_count(), 0);
    assert_eq!(monitor.last_update(), 3);
}

#[test]
fn refresh_without_process_list_fails_empty() {
    let mut monitor = SSHMonitor::with_timestamp(1);
    monitor
        .refresh_at(2, Some(SS_LISTEN_ROOT.as_bytes()), None, Some(PS_AUX.as_bytes()))
        .unwrap();
    let r = monitor.refresh_at(9, Some(SS_LISTEN_ROOT.as_bytes()), None, None);
    assert_eq!(r, Err(RefreshError::ProcessListUnavailable));
    assert!(monitor.get_connections().is_empty());
    assert_eq!(monitor.last_update(), 9);
}

#[test]
fn refresh_with_clock_fills_connections() {
    let mut monitor = SSHMonitor::new();
    monitor
        .refresh_with(Some(SS_LISTEN_ROOT.as_bytes()), None, Some(PS_AUX.as_bytes()))
        .unwrap();
    assert_eq!(monitor.get_connection_count(), 2);
    assert!(monitor.last_update() > 1_600_000_000);
}

#[test]
fn refresh_decodes_invalid_utf8_lossily() {
    let mut monitor = SSHMonitor::with_timestamp(1);
    let mut ps = PS_AUX.as_bytes().to_vec();
    ps.extend_from_slice(b"bastion 42 0 0 1 1 ? S 1:00 0:00 sshd: b\xffob\n");
    monitor
        .refresh_at(2, None, None, Some(&ps))
        .unwrap();
    let sessions = collect_sessions(&String::from_utf8_lossy(&ps));
    assert_eq!(sessions.len(), 3);
    assert_eq!(sessions[2].session_info, "b\u{fffd}ob");
}

#[test]
fn new_monitor_is_empty() {
    let monitor = SSHMonitor::new();
    assert_eq!(monitor.get_connection_count(), 0);
    assert!(monitor.get_connections().is_empty());
    let at = SSHMonitor::with_timestamp(42);
    assert_eq!(at.last_update(), 42);
}

#[test]
fn push_connection_with_and_without_client() {
    let mut monitor = SSHMonitor::with_timestamp(5);
    monitor.push_connection(9, "alice", "alice", "10.0.0.1:5555", 4022);
    monitor.push_connection(10, "bob", "bob", "", 4023);
    assert_eq!(
        monitor.get_connections(),
        vec![tunnel(9, "alice", "alice (10.0.0.1:5555)", 4022), tunnel(10, "bob", "bob", 4023)]
    );
    assert_eq!(monitor.last_update(), 5);
    assert_eq!(make_connection(10, "bob", "bob", "", 4023), tunnel(10, "bob", "bob", 4023));
}

#[test]
fn stats_count_their_connections() {
    let stats = ConnectionStats::new(vec![tunnel(1, "a", "a", 2000), tunnel(2, "b", "b", 2001)], 77);
    assert_eq!(stats.total_connections, 2);
    assert_eq!(stats.timestamp, 77);
    let empty = ConnectionStats::new(Vec::new(), 0);
    assert_eq!(empty.total_connections, 0);
}

#[test]
fn ssh_client_line_with_reverse_forward() {
    let monitor = SSHMonitor::with_timestamp(0);
    let line = "bastion  777  0.0  0.1  1234  567 ?  S  10:00  0:00 /usr/bin/autossh -M 0 -R *:8080:localhost:22 bastion@bastion.example.com -p 2222 -N -T";
    let conn = monitor.parse_ssh_process(line).unwrap();
    assert_eq!(
        conn,
        Connection {
            pid: 777,
            user: "bastion".to_string(),
            remote_bind: "*:8080".to_string(),
            local_bind: "localhost".to_string(),
            remote_port: 8080,
            local_port: 22,
            bastion_host: "bastion.example.com".to_string(),
            bastion_port: 2222,
            command: "/usr/bin/autossh -M 0 -R *:8080:localhost:22 bastion@bastion.example.com -p 2222 -N -T".to_string(),
            uptime: "running".to_string(),
            status: "Connected".to_string(),
        }
    );
}

#[test]
fn ssh_client_line_default_port_and_rejections() {
    let monitor = SSHMonitor::with_timestamp(0);
    let line = "me 12 0 0 1 1 ? S 1:00 0:00 /usr/bin/ssh -R :9000:127.0.0.1:80 autossh@host.example";
    let conn = monitor.parse_ssh_process(line).unwrap();
    assert_eq!(conn.bastion_port, 22);
    assert_eq!(conn.remote_port, 9000);
    assert_eq!(conn.local_bind, "127.0.0.1");
    assert_eq!(conn.local_port, 80);
    assert_eq!(conn.bastion_host, "host.example");
    assert_eq!(conn.command, "/usr/bin/ssh -R :9000:127.0.0.1:80 autossh@host.example");
    let no_colon = "me 12 0 0 1 1 ? S 1:00 0:00 /usr/bin/ssh -R 9000:127.0.0.1:80 bastion@host";
    assert!(monitor.parse_ssh_process(no_colon).is_none());
    let no_forward = "me 12 0 0 1 1 ? S 1:00 0:00 /usr/bin/ssh bastion@host";
    assert!(monitor.parse_ssh_process(no_forward).is_none());
    let grep = "me 13 0 0 1 1 ? S 1:00 0:00 grep /usr/bin/ssh -R 1:a:2 bastion@h";
    assert!(monitor.parse_ssh_process(grep).is_none());
    let bad_port = "me 14 0 0 1 1 ? S 1:00 0:00 /usr/bin/ssh -R 99999:a:2 bastion@h";
    assert!(monitor.parse_ssh_process(bad_port).is_none());
}

#[test]
fn listening_ports_from_command_output_bytes() {
    let monitor = SSHMonitor::with_timestamp(0);
    let mut out = SS_LISTEN_ROOT.as_bytes().to_vec();
    out.extend_from_slice(b"# \xfe\xff\n");
    let (by_pid, _, ports) = monitor.get_sshd_listening_ports(Some(&out));
    assert_eq!(by_pid.len(), 2);
    assert_eq!(ports, vec![3333, 8951, 8951]);
    let (a, b, p) = monitor.get_sshd_listening_ports(None);
    assert!(a.is_empty() && b.is_empty() && p.is_empty());
}

#[test]
fn client_ips_from_command_output_bytes() {
    let monitor = SSHMonitor::with_timestamp(0);
    let ips = monitor.get_client_ips(Some(SS_ESTABLISHED.as_bytes()));
    assert_eq!(ips.get(&5000).map(|s| s.as_str()), Some("198.51.100.7:40022"));
    assert!(monitor.get_client_ips(None).is_empty());
}

#[test]
fn plain_ssh_client_from_readme() {
    let monitor = SSHMonitor::with_timestamp(0);
    let line = "bastion 4242 0.0 0.1 1234 567 ? S 10:00 0:00 ssh -R *:8080:localhost:8080 bastion@bastion.example.com -p 2222 -N -T";
    let conn = monitor.parse_ssh_process(line).unwrap();
    assert_eq!(conn.pid, 4242);
    assert_eq!(conn.user, "bastion");
    assert_eq!(conn.remote_port, 8080);
    assert_eq!(conn.remote_bind, "*:8080");
    assert_eq!(conn.local_bind, "localhost");
    assert_eq!(conn.local_port, 8080);
    assert_eq!(conn.bastion_host, "bastion.example.com");
    assert_eq!(conn.bastion_port, 2222);
    assert_eq!(
        conn.command,
        "ssh -R *:8080:localhost:8080 bastion@bastion.example.com -p 2222 -N -T"
    );
}

#[test]
fn plain_ssh_client_alice() {
    let monitor = SSHMonitor::new();
    let line = "alice 2345 0.0 0.0 9000 4000 ? Ss 10:00 0:00 ssh -R *:9090:localhost:22 bastion@bastion.example.com -p 2222 -N -T";
    let c = monitor.parse_ssh_process(line).unwrap();
    assert_eq!(c.pid, 2345);
    assert_eq!(c.user, "alice");
    assert_eq!(c.remote_port, 9090);
    assert_eq!(c.local_bind, "localhost");
    assert_eq!(c.local_port, 22);
    assert_eq!(c.bastion_host, "bastion.example.com");
    assert_eq!(c.bastion_port, 2222);
}

#[test]
fn ssh_program_word_must_name_the_client() {
    let monitor = SSHMonitor::with_timestamp(0);
    let agent = "u 7 0 0 1 1 ? S 1:00 0:00 /usr/bin/ssh-agent -R *:9:h:2 bastion@h";
    assert!(monitor.parse_ssh_process(agent).is_none());
    let short = "u 7 0 0 1 1 ? S 1:00 0:00 ssh -R *:9:h:2 bastion@h";
    let c = monitor.parse_ssh_process(short).unwrap();
    assert_eq!(c.remote_port, 9);
    assert_eq!(c.local_port, 2);
    assert_eq!(c.bastion_port, 22);
}

#[test]
fn make_client_connection_fills_record() {
    let c = make_client_connection(
        5,
        "u".to_string(),
        "ssh -R *:7:h:8 bastion@b".to_string(),
        7,
        "h".to_string(),
        8,
        "b".to_string(),
        22,
    );
    assert_eq!(c.remote_bind, "*:7");
    assert_eq!(c.uptime, "running");
    assert_eq!(c.status, "Connected");
    assert_eq!(c.command, "ssh -R *:7:h:8 bastion@b");
}

#[test]
fn record_listener_pids_first_owner_stays() {
    let mut by_pid = HashMap::new();
    let mut by_port = HashMap::new();
    by_port.insert(4000u16, 1u32);
    record_listener_pids(&mut by_pid, &mut by_port, &vec![10, 11], 4000);
    assert_eq!(by_pid.get(&10), Some(&4000));
    assert_eq!(by_pid.get(&11), Some(&4000));
    assert_eq!(by_port.get(&4000), Some(&1));
    record_listener_pids(&mut by_pid, &mut by_port, &vec![10], 5000);
    assert_eq!(by_pid.get(&10), Some(&5000));
    assert_eq!(by_port.get(&5000), Some(&10));
}

#[test]
fn record_peer_pids_first_peer_stays() {
    let mut map = HashMap::new();
    record_peer_pids(&mut map, &vec![3, 4], &"1.2.3.4:5".to_string());
    record_peer_pids(&mut map, &vec![4, 5], &"6.7.8.9:1".to_string());
    assert_eq!(map.get(&3).map(|s| s.as_str()), Some("1.2.3.4:5"));
    assert_eq!(map.get(&4).map(|s| s.as_str()), Some("1.2.3.4:5"));
    assert_eq!(map.get(&5).map(|s| s.as_str()), Some("6.7.8.9:1"));
}

#[test]
fn group1_text_of_captures() {
    assert_eq!(group1_text(None), "");
    assert_eq!(group1_text(Some(vec![Some("all".to_string())])), "");
    assert_eq!(group1_text(Some(vec![Some("all".to_string()), None])), "");
    assert_eq!(
        group1_text(Some(vec![Some("all".to_string()), Some("1.2.3.4:5".to_string())])),
        "1.2.3.4:5"
    );
}

#[test]
fn match_sessions_by_pid_and_by_position() {
    let sessions = vec![
        TunnelSession { pid: 4848, user: "bastion".to_string(), session_info: "bastion".to_string() },
        TunnelSession { pid: 5000, user: "bob".to_string(), session_info: "bob".to_string() },
    ];
    let mut ips = HashMap::new();
    ips.insert(5000u32, "9.9.9.9:1".to_string());

    let mut by_pid = HashMap::new();
    by_pid.insert(5000u32, 3333u16);
    let mut by_port = HashMap::new();
    by_port.insert(3333u16, 5000u32);
    let mut m = SSHMonitor::with_timestamp(3);
    m.match_sessions(&sessions, &by_pid, &by_port, &vec![3333], &ips);
    assert_eq!(m.get_connections(), vec![tunnel(5000, "bob", "bob (9.9.9.9:1)", 3333)]);
    assert_eq!(m.last_update(), 3);

    let mut m = SSHMonitor::with_timestamp(3);
    m.match_sessions(&sessions, &HashMap::new(), &HashMap::new(), &vec![2000, 2001, 2002], &ips);
    assert_eq!(
        m.get_connections(),
        vec![tunnel(4848, "bastion", "bastion", 2000), tunnel(5000, "bob", "bob (9.9.9.9:1)", 2001)]
    );
}
