//! The records the dashboard reports: one reverse-tunnel connection, and a
//! snapshot of all of them.

use vstd::prelude::*;

use crate::text::decimal;

verus! {

/// One reverse SSH tunnel held open through the bastion.
#[derive(Debug, PartialEq, Eq)]
pub struct Connection {
    pub pid: u32,
    pub user: String,
    pub remote_bind: String,
    pub local_bind: String,
    pub remote_port: u16,
    pub local_port: u16,
    pub bastion_host: String,
    pub bastion_port: u16,
    pub command: String,
    pub uptime: String,
    pub status: String,
}

/// A connection with its strings taken as character sequences.
pub struct ConnectionView {
    pub pid: u32,
    pub user: Seq<char>,
    pub remote_bind: Seq<char>,
    pub local_bind: Seq<char>,
    pub remote_port: u16,
    pub local_port: u16,
    pub bastion_host: Seq<char>,
    pub bastion_port: u16,
    pub command: Seq<char>,
    pub uptime: Seq<char>,
    pub status: Seq<char>,
}

impl View for Connection {
    type V = ConnectionView;

    open spec fn view(&self) -> ConnectionView {
        ConnectionView {
            pid: self.pid,
            user: self.user@,
            remote_bind: self.remote_bind@,
            local_bind: self.local_bind@,
            remote_port: self.remote_port,
            local_port: self.local_port,
            bastion_host: self.bastion_host@,
            bastion_port: self.bastion_port,
            command: self.command@,
            uptime: self.uptime@,
            status: self.status@,
        }
    }
}

impl Clone for Connection {
    fn clone(&self) -> (r: Self)
        ensures
            r@ == self@,
    {
        Connection {
            pid: self.pid,
            user: self.user.clone(),
            remote_bind: self.remote_bind.clone(),
            local_bind: self.local_bind.clone(),
            remote_port: self.remote_port,
            local_port: self.local_port,
            bastion_host: self.bastion_host.clone(),
            bastion_port: self.bastion_port,
            command: self.command.clone(),
            uptime: self.uptime.clone(),
            status: self.status.clone(),
        }
    }
}

/// The views of a sequence of connections.
pub open spec fn connection_views(s: Seq<Connection>) -> Seq<ConnectionView> {
    s.map_values(|c: Connection| c@)
}

/// The record of a reverse tunnel owned by the sshd session `pid` of
/// `user`, whose session shows as `session_info`, whose client connected
/// from `client_ip` (empty when unknown), listening on the bastion's
/// `port` and forwarding to the client's SSH port.
pub open spec fn tunnel_connection(
    pid: u32,
    user: Seq<char>,
    session_info: Seq<char>,
    client_ip: Seq<char>,
    port: u16,
) -> ConnectionView {
    ConnectionView {
        pid,
        user,
        remote_bind: "*:"@ + decimal(port as nat),
        local_bind: "localhost:22"@,
        remote_port: port,
        local_port: 22,
        bastion_host: if client_ip.len() == 0 {
            session_info
        } else {
            session_info + " ("@ + client_ip + ")"@
        },
        bastion_port: 22,
        command: "ssh -p "@ + decimal(port as nat) + " root@<bastion-ip>"@,
        uptime: "running"@,
        status: "Connected"@,
    }
}

/// A snapshot of the monitored connections, as the dashboard reports it.
#[derive(Debug, PartialEq, Eq)]
pub struct ConnectionStats {
    pub total_connections: usize,
    pub timestamp: u64,
    pub connections: Vec<Connection>,
}

impl ConnectionStats {
    /// The count agrees with the list.
    pub open spec fn well_formed(&self) -> bool {
        self.total_connections == self.connections.len()
    }

    /// A snapshot of `connections` taken at `timestamp`.
    pub fn new(connections: Vec<Connection>, timestamp: u64) -> (r: ConnectionStats)
        ensures
            r.well_formed(),
            r.timestamp == timestamp,
            r.connections == connections,
    {
        ConnectionStats { total_connections: connections.len(), timestamp, connections }
    }
}

} // verus!
