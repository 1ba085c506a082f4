use bastion_dashboard::models::{Connection, ConnectionStats};
use bastion_dashboard::render::{connection_card_html, render_connections_html};

fn conn(pid: u32, user: &str, host: &str, port: u16) -> Connection {
    Connection {
        pid,
        user: user.to_string(),
        remote_bind: format!("*:{}", port),
        local_bind: "localhost:22".to_string(),
        remote_port: port,
        local_port: 22,
        bastion_host: host.to_string(),
        bastion_port: 22,
        command: format!("ssh -p {} root@<bastion-ip>", port),
        uptime: "running".to_string(),
        status: "Connected".to_string(),
    }
}

fn expected_card(c: &Connection) -> String {
    format!(
        r#"
            <div class='connection-card'>
                <div class='connection-header'>
                    <span class='status-badge'>{}</span>
                    <span class='pid'>PID: {}</span>
                </div>
                <div class='connection-body'>
                    <div class='connection-row'>
                        <span class='label'>User:</span>
                        <span class='value'>{}</span>
                    </div>
                    <div class='connection-row'>
                        <span class='label'>Bastion:</span>
                        <span class='value'>{}:{}</span>
                    </div>
                    <div class='connection-row'>
                        <span class='label'>Reverse Port:</span>
                        <span class='value highlight'>{}</span>
                    </div>
                    <div class='connection-row'>
                        <span class='label'>Local:</span>
                        <span class='value'>{}:{}</span>
                    </div>
                    <div class='connection-row'>
                        <span class='label'>Status:</span>
                        <span class='value'>{}</span>
                    </div>
                </div>
            </div>
            "#,
        c.status, c.pid, c.user, c.bastion_host, c.bastion_port, c.remote_port, c.local_bind,
        c.local_port, c.status
    )
}

#[test]
fn empty_snapshot_renders_notice() {
    let stats = ConnectionStats::new(Vec::new(), 5);
    assert_eq!(
        render_connections_html(&stats),
        "<div class='no-connections'>No active connections</div>"
    );
}

#[test]
fn snapshot_renders_cards_in_order() {
    let a = conn(4848, "bastion", "bastion (203.0.113.5:51234)", 8951);
    let b = conn(0, "root", "x", 65535);
    let want = format!(
        "<div class='connections-list'>{}{}</div>",
        expected_card(&a),
        expected_card(&b)
    );
    let stats = ConnectionStats::new(vec![a, b], 1);
    assert_eq!(render_connections_html(&stats), want);
}

#[test]
fn card_shows_each_field() {
    let c = conn(123456789, "u", "h", 1024);
    let card = connection_card_html(&c);
    assert_eq!(card, expected_card(&c));
    assert!(card.contains("PID: 123456789"));
    assert!(card.contains("<span class='value'>h:22</span>"));
    assert!(card.contains("<span class='value highlight'>1024</span>"));
}
