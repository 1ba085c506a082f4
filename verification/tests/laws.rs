use bastion_dashboard::ss_output::{parse_listening_ports, sort_ports};
use bastion_dashboard::ssh_monitor::SSHMonitor;

#[test]
fn sorted_ports_are_ascending_rearrangement() {
    let input = vec![9000u16, 1024, 65535, 1024, 3000];
    let mut want = input.clone();
    want.sort_unstable();
    assert_eq!(sort_ports(&input), want);
    assert_eq!(sort_ports(&[]), Vec::<u16>::new());
}

#[test]
fn tables_agree_on_concrete_output() {
    let out = "\
LISTEN 0 128 0.0.0.0:4000 0.0.0.0:* users:((\"sshd\",pid=10,fd=9),(\"sshd\",pid=11,fd=9))
LISTEN 0 128 0.0.0.0:1023 0.0.0.0:* users:((\"sshd\",pid=12,fd=9))
LISTEN 0 128 0.0.0.0:22 0.0.0.0:* users:((\"sshd\",pid=1,fd=9))
LISTEN 0 128 *:5000 *:* users:((\"sshd\",pid=10,fd=10))
";
    let (by_pid, by_port, ports) = parse_listening_ports(out);
    for (pid, port) in &by_pid {
        assert!(by_port.contains_key(port), "{} {}", pid, port);
        assert!(ports.contains(port));
    }
    for (port, pid) in &by_port {
        assert!(by_pid.contains_key(pid));
        assert!(ports.contains(port));
    }
    assert!(ports.iter().all(|p| *p > 1023));
    assert!(ports.windows(2).all(|w| w[0] <= w[1]));
    assert_eq!(by_pid.is_empty(), by_port.is_empty());
}

#[test]
fn refreshed_connections_are_tunnel_sessions() {
    let ss = "LISTEN 0 128 0.0.0.0:22 0.0.0.0:*\nLISTEN 0 128 0.0.0.0:2022 0.0.0.0:*\n";
    let ps = "\
bob 5 0 0 1 1 ? S 1:00 0:00 sshd: bob@pts/0
bob 6 0 0 1 1 ? S 1:00 0:00 sshd: bob
";
    let mut m = SSHMonitor::with_timestamp(0);
    m.refresh_at(1, Some(ss.as_bytes()), None, Some(ps.as_bytes())).unwrap();
    let conns = m.get_connections();
    assert_eq!(conns.len(), 1);
    assert_eq!(conns[0].pid, 6);
    assert_eq!(conns[0].remote_port, 2022);
    assert_eq!(conns[0].local_port, 22);
    assert_eq!(conns[0].status, "Connected");
}

#[test]
fn port_numeral_reads_back() {
    for p in [0u16, 22, 1024, 8951, 65535] {
        let conn = bastion_dashboard::ssh_monitor::make_connection(1, "u", "s", "", p);
        let numeral = conn.remote_bind.strip_prefix("*:").unwrap();
        assert_eq!(numeral.parse::<u16>().unwrap(), p);
    }
}

#[test]
fn listener_and_pidless_lines_are_ignored() {
    let m = SSHMonitor::with_timestamp(0);
    let mut ports = std::collections::HashMap::new();
    ports.insert(1u32, 5000u16);
    assert!(m
        .parse_sshd_process("root 1 0 0 1 1 ? Ss 1:00 0:00 sshd: /usr/sbin/sshd [listener]", &ports)
        .is_none());
    assert!(m.parse_sshd_process("root x1 0 0 1 1 ? Ss 1:00 0:00 sshd: root", &ports).is_none());
}
