//! What opening and closing a stream comes to.

use vstd::prelude::*;

use super::dispatch::ControlMethod;
use crate::schema::{ControlOpenParams, ErrorCode};

verus! {

/// The protocol that a stream speaks once it is open: 2 for a client that
/// declared 2 or more, else 1.
pub open spec fn spoken(params: ControlOpenParams) -> u32 {
    match params.client {
        Some(client) => if client.protocol >= 2 {
            2
        } else {
            1
        },
        None => 1,
    }
}

/// Opening a stream adds one connection behind all others, under an id that
/// none of them has. It holds what the client declared, speaks the protocol that
/// both sides know, and has no attach, no stored size and no input. The answer
/// tells the id, the protocol, and which server answered.
pub proof fn an_opened_stream_is_as_declared(
    server: super::state::ServerModel,
    id: Seq<char>,
    params: ControlOpenParams,
)
    requires
        server.wf(),
        server.has_room(Some(0), ControlMethod::ControlOpen { params }),
    ensures
        ({
            let outcome = server.handled(id, Some(0), ControlMethod::ControlOpen { params });
            let n = server.control_connections.len() as int;
            let c = outcome.0.control_connections[n];
            &&& outcome.0.control_connections.len() == n + 1
            &&& forall|j: int|
                0 <= j < n ==> #[trigger] outcome.0.control_connections[j]
                    == server.control_connections[j] && outcome.0.control_connections[j].connection_id
                    != c.connection_id
            &&& c.connection_id == 0x100_0000_0000 + server.next_control_connection_id
            &&& outcome.0.next_control_connection_id == server.next_control_connection_id + 1
            &&& c.next_attach == 0
            &&& c.client == crate::schema::client_view(params.client)
            &&& c.protocol == spoken(params)
            &&& c.attaches.len() == 0
            &&& forall|tab_id: Seq<char>| !#[trigger] c.tab_geometry.contains_key(tab_id)
            &&& c.handle.id == c.connection_id
            &&& c.handle.protocol == spoken(params)
            &&& c.handle.alive
            &&& forall|attach_id: Seq<char>| !#[trigger] c.handle.inputs.contains_key(attach_id)
            &&& forall|attach_id: Seq<char>| !#[trigger] c.handle.claim_on_input.contains(attach_id)
            &&& outcome.1 == super::dispatch::AnswerModel::Answer {
                reply: crate::schema::ReplyModel::Success {
                    id,
                    result: crate::schema::ResultModel::ControlOpened {
                        connection_id: c.connection_id,
                        boot_id: server.client_shell_boot_id,
                        version: server.version,
                        protocol: server.protocol_version,
                        terminal_control_stream: 2,
                        control_features: seq![
                            "shared_attach"@,
                            "geometry_ownership"@,
                            "geometry_controller"@,
                            "control_list"@,
                            "client_identity"@,
                            "query_authority"@,
                            "event_drain"@,
                            "event_gap"@,
                            "auto_input"@,
                        ],
                        control_protocol: spoken(params),
                    },
                },
            }
            &&& outcome.0.effects == server.effects
            &&& outcome.0.app == server.app
            &&& outcome.0.tab_geometry_controllers == server.tab_geometry_controllers
            &&& outcome.0.terminal_attach_owners == server.terminal_attach_owners
            &&& outcome.0.clients == server.clients
            &&& outcome.0.direct_attach_resize_locks == server.direct_attach_resize_locks
        }),
{
    assert forall|j: int| 0 <= j < server.control_connections.len() implies (
    #[trigger] server.control_connections[j]).connection_id
        != super::state::CONTROL_CONNECTION_ID_BASE + server.next_control_connection_id by {
        assert(server.control_connections[j].wf());
    }
}

/// A stream is opened once, and only as a stream.
pub proof fn a_stream_opens_once(
    server: super::state::ServerModel,
    id: Seq<char>,
    stream: Option<u64>,
    params: ControlOpenParams,
)
    requires
        stream != Some(0u64),
    ensures
        ({
            let outcome = server.handled(id, stream, ControlMethod::ControlOpen { params });
            &&& outcome.0 == server
            &&& stream is None ==> outcome.1 == super::arrivals::refusal(
                id,
                ErrorCode::ControlStreamRequired,
                "control.open must be the first request on its own connection"@,
            )
            &&& stream is Some ==> outcome.1 == super::arrivals::refusal(
                id,
                ErrorCode::UnsupportedInControlStream,
                "control stream is already open"@,
            )
        }),
{
}

/// Closing a stream takes its connection, and it alone, from the list; the others
/// keep their order, who they are and the sizes they stored. Closing anything
/// but an open stream changes nothing.
pub proof fn closing_takes_one_connection(
    server: super::state::ServerModel,
    id: Seq<char>,
    connection_id: u64,
)
    requires
        server.wf(),
    ensures
        ({
            let outcome = server.handled(id, Some(connection_id), ControlMethod::ControlClose);
            let absent = server.handled(id, None, ControlMethod::ControlClose);
            &&& outcome.1 == super::succession::done(id)
            &&& absent.0 == server
            &&& absent.1 == super::arrivals::refusal(
                id,
                ErrorCode::ControlStreamRequired,
                "control.close is only available on a control stream"@,
            )
            &&& outcome.0.app == server.app
            &&& forall|j: int|
                0 <= j < outcome.0.control_connections.len() ==> (
                #[trigger] outcome.0.control_connections[j]).connection_id != connection_id
            &&& (forall|i: int|
                0 <= i < server.control_connections.len() ==> (
                #[trigger] server.control_connections[i]).connection_id != connection_id)
                ==> outcome.0 == server
            &&& forall|i: int|
                0 <= i < server.control_connections.len() && (
                #[trigger] server.control_connections[i]).connection_id == connection_id ==> {
                    let n = outcome.0.effects.len() as int;
                    &&& outcome.0.control_connections.len() == server.control_connections.len() - 1
                    &&& n >= 2
                    &&& outcome.0.effects[n - 1] == super::state::EffectModel::StreamClosed {
                        connection_id,
                    }
                    &&& outcome.0.effects[n - 2] is RederiveShellGeometry
                }
            &&& forall|i: int, j: int|
                0 <= i < server.control_connections.len() && server.control_connections[i].connection_id
                    == connection_id && 0 <= j < server.control_connections.len() && j != i ==> {
                    let d = outcome.0.control_connections[if j < i {
                        j
                    } else {
                        j - 1
                    }];
                    &&& d.connection_id == (#[trigger] server.control_connections[j]).connection_id
                    &&& d.tab_geometry == server.control_connections[j].tab_geometry
                    &&& (#[trigger] server.control_connections[i]).connection_id == connection_id
                }
        }),
{
    let after = server.released_connection(connection_id);
    assert(server.handled(id, Some(connection_id), ControlMethod::ControlClose).0 == after);
    super::soundness::lemma_open_connection(server, connection_id);
    match server.connection_index(connection_id) {
        Some(i) => {
            super::succession::lemma_closed_sizes(server, connection_id);
            assert forall|k: int|
                0 <= k < server.control_connections.len() && (
                #[trigger] server.control_connections[k]).connection_id == connection_id implies k
                == i by {
                super::soundness::lemma_connection_index(server, k);
            }
        },
        None => {
            assert forall|k: int| 0 <= k < server.control_connections.len() implies (
            #[trigger] server.control_connections[k]).connection_id != connection_id by {
                super::soundness::lemma_connection_index(server, k);
            }
        },
    }
}

} // verus!
