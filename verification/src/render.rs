//! The HTML fragment that lists the monitored connections.

use vstd::prelude::*;

use crate::models::{Connection, ConnectionStats, ConnectionView, connection_views};
use crate::text::{contains, decimal, push_decimal};

verus! {

/// What the fragment says when there is no connection.
pub const NO_CONNECTIONS_HTML: &'static str = "<div class='no-connections'>No active connections</div>";

/// The opening of the list.
pub const LIST_OPEN: &'static str = "<div class='connections-list'>";

/// The closing of the list.
pub const LIST_CLOSE: &'static str = "</div>";

// The fixed text of a connection card, around each value it shows.
pub const CARD_STATUS: &'static str = "\n            <div class='connection-card'>\n                <div class='connection-header'>\n                    <span class='status-badge'>";

pub const CARD_PID: &'static str = "</span>\n                    <span class='pid'>PID: ";

pub const CARD_USER: &'static str = "</span>\n                </div>\n                <div class='connection-body'>\n                    <div class='connection-row'>\n                        <span class='label'>User:</span>\n                        <span class='value'>";

pub const CARD_BASTION: &'static str = "</span>\n                    </div>\n                    <div class='connection-row'>\n                        <span class='label'>Bastion:</span>\n                        <span class='value'>";

pub const CARD_BASTION_PORT: &'static str = ":";

pub const CARD_REVERSE_PORT: &'static str = "</span>\n                    </div>\n                    <div class='connection-row'>\n                        <span class='label'>Reverse Port:</span>\n                        <span class='value highlight'>";

pub const CARD_LOCAL: &'static str = "</span>\n                    </div>\n                    <div class='connection-row'>\n                        <span class='label'>Local:</span>\n                        <span class='value'>";

pub const CARD_LOCAL_PORT: &'static str = ":";

pub const CARD_STATUS_ROW: &'static str = "</span>\n                    </div>\n                    <div class='connection-row'>\n                        <span class='label'>Status:</span>\n                        <span class='value'>";

pub const CARD_END: &'static str = "</span>\n                    </div>\n                </div>\n            </div>\n            ";

/// The card of one connection: its status, pid, user, bastion host and
/// port, reverse port, local bind and port, and status again.
pub open spec fn connection_card(c: ConnectionView) -> Seq<char> {
    CARD_STATUS@ + c.status + CARD_PID@ + decimal(c.pid as nat) + CARD_USER@ + c.user
        + CARD_BASTION@ + c.bastion_host + CARD_BASTION_PORT@ + decimal(c.bastion_port as nat)
        + CARD_REVERSE_PORT@ + decimal(c.remote_port as nat) + CARD_LOCAL@ + c.local_bind
        + CARD_LOCAL_PORT@ + decimal(c.local_port as nat) + CARD_STATUS_ROW@ + c.status
        + CARD_END@
}

/// A labelled row of a connection card: the label, then the value it
/// shows in a span of the given class.
pub open spec fn card_row(label: Seq<char>, class: Seq<char>, value: Seq<char>) -> Seq<char> {
    "<span class='label'>"@ + label + "</span>\n                        <span class='"@ + class + "'>"@
        + value + "</span>"@
}

/// The cards of the connections, in order.
pub open spec fn connection_cards(cs: Seq<ConnectionView>) -> Seq<char>
    decreases cs.len(),
{
    if cs.len() == 0 {
        seq![]
    } else {
        connection_cards(cs.drop_last()) + connection_card(cs.last())
    }
}

/// The fragment for a list of connections: a notice when there is none,
/// else the list of their cards.
pub open spec fn connections_html(cs: Seq<ConnectionView>) -> Seq<char> {
    if cs.len() == 0 {
        NO_CONNECTIONS_HTML@
    } else {
        LIST_OPEN@ + connection_cards(cs) + LIST_CLOSE@
    }
}

/// The card of one connection (see `connection_card`).
pub fn connection_card_html(conn: &Connection) -> (r: String)
    ensures
        r@ == connection_card(conn@),
        contains(r@, card_row("User:"@, "value"@, conn@.user)),
        contains(
            r@,
            card_row(
                "Bastion:"@,
                "value"@,
                conn@.bastion_host + ":"@ + decimal(conn.bastion_port as nat),
            ),
        ),
        contains(
            r@,
            card_row("Reverse Port:"@, "value highlight"@, decimal(conn.remote_port as nat)),
        ),
        contains(
            r@,
            card_row("Local:"@, "value"@, conn@.local_bind + ":"@ + decimal(conn.local_port as nat)),
        ),
        contains(r@, card_row("Status:"@, "value"@, conn@.status)),
{
    let mut card = String::from_str(CARD_STATUS);
    card.append(conn.status.as_str());
    card.append(CARD_PID);
    push_decimal(&mut card, conn.pid as u64);
    card.append(CARD_USER);
    card.append(conn.user.as_str());
    card.append(CARD_BASTION);
    card.append(conn.bastion_host.as_str());
    card.append(CARD_BASTION_PORT);
    push_decimal(&mut card, conn.bastion_port as u64);
    card.append(CARD_REVERSE_PORT);
    push_decimal(&mut card, conn.remote_port as u64);
    card.append(CARD_LOCAL);
    card.append(conn.local_bind.as_str());
    card.append(CARD_LOCAL_PORT);
    push_decimal(&mut card, conn.local_port as u64);
    card.append(CARD_STATUS_ROW);
    card.append(conn.status.as_str());
    card.append(CARD_END);
    proof {
        crate::laws::lemma_card_rows(conn@);
    }
    card
}

/// Renders the connections of a snapshot as an HTML fragment (see
/// `connections_html`).
pub fn render_connections_html(stats: &ConnectionStats) -> (r: String)
    ensures
        r@ == connections_html(connection_views(stats.connections@)),
        forall|i: int|
            0 <= i < stats.connections.len() ==> contains(
                r@,
                #[trigger] connection_card(stats.connections@[i]@),
            ),
{
    let ghost cs = connection_views(stats.connections@);
    if stats.connections.len() == 0 {
        return String::from_str(NO_CONNECTIONS_HTML);
    }
    let mut html = String::from_str(LIST_OPEN);
    let mut i: usize = 0;
    while i < stats.connections.len()
        invariant
            0 <= i <= stats.connections.len(),
            cs == connection_views(stats.connections@),
            html@ == LIST_OPEN@ + connection_cards(cs.take(i as int)),
        decreases stats.connections.len() - i,
    {
        let conn = &stats.connections[i];
        let ghost before = html@;
        let card = connection_card_html(conn);
        html.append(card.as_str());
        proof {
            assert(cs.take(i + 1).drop_last() =~= cs.take(i as int));
            assert(cs.take(i + 1).last() == conn@);
            assert(html@ == before + connection_card(conn@));
        }
        i = i + 1;
    }
    html.append(LIST_CLOSE);
    assert(cs.take(stats.connections.len() as int) =~= cs);
    proof {
        crate::laws::lemma_fragment_shows_every_connection(cs);
        assert forall|i: int| 0 <= i < stats.connections.len() implies contains(
            html@,
            #[trigger] connection_card(stats.connections@[i]@),
        ) by {
            assert(cs[i] == stats.connections@[i]@);
        }
    }
    html
}

} // verus!
