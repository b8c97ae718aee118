//! Interactions with tabs over time: whose came last, who keeps a tab, who
//! inherits it and at what size.

use vstd::prelude::*;

use super::dispatch::ControlMethod;
use super::state::{ControlTabGeometry, HostCellSize};
use crate::schema::{TabClaimGeometryParams, TabSetGeometryParams, TerminalDetachReason};

verus! {

/// What comes of a request that is done with nothing to report.
pub open spec fn done(id: Seq<char>) -> super::dispatch::AnswerModel {
    super::dispatch::AnswerModel::Answer {
        reply: crate::schema::ReplyModel::Success { id, result: crate::schema::ResultModel::Done },
    }
}

/// Every stored size was last interacted with under a stamp that was handed
/// out.
pub open spec fn stamps_are_past(server: super::state::ServerModel) -> bool {
    forall|i: int, t: Seq<char>|
        0 <= i < server.control_connections.len() && #[trigger]
            server.control_connections[i].tab_geometry.contains_key(t)
            ==> server.control_connections[i].tab_geometry[t].last_interaction
            < server.next_activity_stamp
}

/// Forgetting attaches whose terminal went away leaves ids, sizes, stamps and
/// owners alone.
pub proof fn lemma_pruned_sizes(server: super::state::ServerModel, connection_id: u64)
    ensures
        ({
            let after = server.pruned(connection_id);
            &&& after.control_connections.len() == server.control_connections.len()
            &&& forall|j: int|
                0 <= j < server.control_connections.len() ==> {
                    &&& (#[trigger] after.control_connections[j]).connection_id
                        == server.control_connections[j].connection_id
                    &&& after.control_connections[j].tab_geometry
                        == server.control_connections[j].tab_geometry
                    &&& after.control_connections[j].protocol
                        == server.control_connections[j].protocol
                    &&& after.control_connections[j].client
                        == server.control_connections[j].client
                }
            &&& forall|id: u64| #[trigger]
                after.connection_index(id) == server.connection_index(id)
            &&& after.next_activity_stamp == server.next_activity_stamp
            &&& after.app == server.app
            &&& after.tab_geometry_controllers == server.tab_geometry_controllers
        }),
{
    super::soundness::lemma_pruned_frames(server, connection_id);
    super::requests::lemma_pruned_rest(server, connection_id);
    let after = server.pruned(connection_id);
    super::soundness::lemma_frames(server, after);
    assert forall|j: int| 0 <= j < server.control_connections.len() implies {
        &&& (#[trigger] after.control_connections[j]).connection_id
            == server.control_connections[j].connection_id
        &&& after.control_connections[j].tab_geometry
            == server.control_connections[j].tab_geometry
        &&& after.control_connections[j].protocol == server.control_connections[j].protocol
        &&& after.control_connections[j].client == server.control_connections[j].client
    } by {
        assert(server.control_connections[j].frame() == after.control_connections[j].frame());
    }
}

/// Connections keep their ids, sizes and clients where only derived state
/// differs.
pub proof fn lemma_bare_sizes(left: super::state::ServerModel, right: super::state::ServerModel)
    requires
        left.bare() == right.bare(),
    ensures
        left.control_connections.len() == right.control_connections.len(),
        forall|j: int|
            0 <= j < right.control_connections.len() ==> {
                &&& (#[trigger] left.control_connections[j]).connection_id
                    == right.control_connections[j].connection_id
                &&& left.control_connections[j].tab_geometry
                    == right.control_connections[j].tab_geometry
                &&& left.control_connections[j].protocol == right.control_connections[j].protocol
                &&& left.control_connections[j].client == right.control_connections[j].client
            },
        left.next_activity_stamp == right.next_activity_stamp,
        left.app == right.app,
        left.tab_geometry_controllers == right.tab_geometry_controllers,
        left.direct_attach_resize_locks == right.direct_attach_resize_locks,
{
    super::soundness::lemma_bare_connections(left, right);
    assert(left.next_activity_stamp == left.bare().next_activity_stamp);
    assert(right.next_activity_stamp == right.bare().next_activity_stamp);
    assert(left.app == left.bare().app);
    assert(right.app == right.bare().app);
    assert(left.tab_geometry_controllers == left.bare().tab_geometry_controllers);
    assert(right.tab_geometry_controllers == right.bare().tab_geometry_controllers);
    assert(left.direct_attach_resize_locks == left.bare().direct_attach_resize_locks);
    assert(right.direct_attach_resize_locks == right.bare().direct_attach_resize_locks);
    assert forall|j: int| 0 <= j < right.control_connections.len() implies {
        &&& (#[trigger] left.control_connections[j]).connection_id
            == right.control_connections[j].connection_id
        &&& left.control_connections[j].tab_geometry == right.control_connections[j].tab_geometry
        &&& left.control_connections[j].protocol == right.control_connections[j].protocol
        &&& left.control_connections[j].client == right.control_connections[j].client
    } by {
        super::soundness::lemma_bare_connection(
            left.control_connections[j],
            right.control_connections[j],
        );
    }
}

/// What storing a size, and taking the tab with it or not, comes to.
proof fn lemma_stored(
    server: super::state::ServerModel,
    i: int,
    tab_id: Seq<char>,
    geometry: ControlTabGeometry,
    takes: bool,
    after: super::state::ServerModel,
)
    requires
        0 <= i < server.control_connections.len(),
        server.app.parse_tab_id(tab_id) is Some,
        ({
            let c = server.control_connections[i];
            let stored = server.stamped().with_connection(i, c.with_tab(tab_id, geometry));
            after == if takes {
                stored.claimed(c.connection_id, tab_id, geometry)
            } else {
                stored.synced_control_geometry_tabs()
            }
        }),
    ensures
        ({
            let c = server.control_connections[i];
            &&& after.control_connections.len() == server.control_connections.len()
            &&& forall|j: int|
                0 <= j < server.control_connections.len() ==> {
                    &&& (#[trigger] after.control_connections[j]).connection_id
                        == server.control_connections[j].connection_id
                    &&& after.control_connections[j].tab_geometry == (if j == i {
                        c.tab_geometry.insert(tab_id, geometry)
                    } else {
                        server.control_connections[j].tab_geometry
                    })
                }
            &&& after.next_activity_stamp == (server.next_activity_stamp + 1) as u64
            &&& after.app == server.app
            &&& after.tab_geometry_controllers == (if takes {
                server.tab_geometry_controllers.insert(tab_id, c.connection_id)
            } else {
                server.tab_geometry_controllers
            })
            &&& takes ==> after.effects.len() > 0 && after.effects.last()
                == super::state::EffectModel::LayOutTab {
                target: server.app.parse_tab_id(tab_id)->Some_0,
                cols: geometry.cols,
                rows: geometry.rows,
                cell_size: geometry.cell_size,
            }
        }),
{
    let c = server.control_connections[i];
    let stored = server.stamped().with_connection(i, c.with_tab(tab_id, geometry));
    let with = stored.with_controller(tab_id, Some(c.connection_id));
    if takes {
        super::soundness::lemma_claimed_bare(stored, c.connection_id, tab_id, geometry);
        lemma_bare_sizes(stored.claimed(c.connection_id, tab_id, geometry), with);
    } else {
        super::soundness::lemma_geometry_sync_bare(stored);
        lemma_bare_sizes(stored.synced_control_geometry_tabs(), stored);
    }
}

/// What a stored size comes to that is answered.
pub proof fn lemma_set(
    server: super::state::ServerModel,
    id: Seq<char>,
    connection_id: u64,
    params: TabSetGeometryParams,
) -> (i: int)
    requires
        server.handled(id, Some(connection_id), ControlMethod::TabSetGeometry { params }).1
            == done(id),
    ensures
        ({
            let after = server.handled(
                id,
                Some(connection_id),
                ControlMethod::TabSetGeometry { params },
            ).0;
            let c = server.control_connections[i];
            let t = params.tab_id@;
            let geometry = super::requests::stored_geometry(c, params, server.next_activity_stamp);
            let takes = params.claim || server.controller(t) == Some(connection_id);
            &&& server.connection_index(connection_id) == Some(i)
            &&& 0 <= i < server.control_connections.len()
            &&& c.connection_id == connection_id
            &&& connection_id != 0
            &&& server.app.parse_tab_id(t) is Some
            &&& params.cols > 0 && params.rows > 0
            &&& after.control_connections.len() == server.control_connections.len()
            &&& forall|j: int|
                0 <= j < server.control_connections.len() ==> {
                    &&& (#[trigger] after.control_connections[j]).connection_id
                        == server.control_connections[j].connection_id
                    &&& after.control_connections[j].tab_geometry == (if j == i {
                        c.tab_geometry.insert(t, geometry)
                    } else {
                        server.control_connections[j].tab_geometry
                    })
                }
            &&& after.next_activity_stamp == (server.next_activity_stamp + 1) as u64
            &&& after.app == server.app
            &&& after.tab_geometry_controllers == (if takes {
                server.tab_geometry_controllers.insert(t, connection_id)
            } else {
                server.tab_geometry_controllers
            })
            &&& takes ==> after.effects.len() > 0 && after.effects.last()
                == super::state::EffectModel::LayOutTab {
                target: server.app.parse_tab_id(t)->Some_0,
                cols: geometry.cols,
                rows: geometry.rows,
                cell_size: geometry.cell_size,
            }
        }),
{
    let t = params.tab_id@;
    let pruned = server.pruned(connection_id);
    lemma_pruned_sizes(server, connection_id);
    super::soundness::lemma_open_connection(server, connection_id);
    let i = server.connection_index(connection_id)->Some_0;
    assert(pruned.connection_index(connection_id) == Some(i));
    let c = pruned.control_connections[i];
    assert(c.connection_id == connection_id);
    let geometry = super::requests::stored_geometry(c, params, pruned.next_activity_stamp);
    let after = server.handled(id, Some(connection_id), ControlMethod::TabSetGeometry { params }).0;
    lemma_stored(
        pruned,
        i,
        t,
        geometry,
        params.claim || server.controller(t) == Some(connection_id),
        after,
    );
    assert forall|j: int| 0 <= j < server.control_connections.len() implies {
        &&& (#[trigger] after.control_connections[j]).connection_id
            == server.control_connections[j].connection_id
        &&& after.control_connections[j].tab_geometry == (if j == i {
            server.control_connections[i].tab_geometry.insert(t, geometry)
        } else {
            server.control_connections[j].tab_geometry
        })
    } by {
        assert(pruned.control_connections[j].connection_id
            == server.control_connections[j].connection_id);
        assert(pruned.control_connections[i].connection_id == connection_id);
    }
    i
}

/// What a claim comes to that is answered.
pub proof fn lemma_claim(
    server: super::state::ServerModel,
    id: Seq<char>,
    connection_id: u64,
    params: TabClaimGeometryParams,
) -> (found: (int, Seq<char>))
    requires
        server.handled(id, Some(connection_id), ControlMethod::TabClaimGeometry { params }).1
            == done(id),
    ensures
        ({
            let (i, t) = found;
            let after = server.handled(
                id,
                Some(connection_id),
                ControlMethod::TabClaimGeometry { params },
            ).0;
            let c = server.control_connections[i];
            let geometry = ControlTabGeometry {
                last_interaction: server.next_activity_stamp,
                ..c.tab_geometry[t]
            };
            &&& server.pruned(connection_id).claimed_tab(connection_id, params) == Ok::<
                Seq<char>,
                (crate::schema::ErrorCode, Seq<char>),
            >(t)
            &&& server.connection_index(connection_id) == Some(i)
            &&& 0 <= i < server.control_connections.len()
            &&& c.connection_id == connection_id
            &&& connection_id != 0
            &&& c.tab_geometry.contains_key(t)
            &&& server.app.parse_tab_id(t) is Some
            &&& after.control_connections.len() == server.control_connections.len()
            &&& forall|j: int|
                0 <= j < server.control_connections.len() ==> {
                    &&& (#[trigger] after.control_connections[j]).connection_id
                        == server.control_connections[j].connection_id
                    &&& after.control_connections[j].tab_geometry == (if j == i {
                        c.tab_geometry.insert(t, geometry)
                    } else {
                        server.control_connections[j].tab_geometry
                    })
                }
            &&& after.next_activity_stamp == (server.next_activity_stamp + 1) as u64
            &&& after.app == server.app
            &&& after.tab_geometry_controllers == server.tab_geometry_controllers.insert(
                t,
                connection_id,
            )
            &&& after.effects.len() > 0 && after.effects.last()
                == super::state::EffectModel::LayOutTab {
                target: server.app.parse_tab_id(t)->Some_0,
                cols: geometry.cols,
                rows: geometry.rows,
                cell_size: geometry.cell_size,
            }
        }),
{
    let pruned = server.pruned(connection_id);
    lemma_pruned_sizes(server, connection_id);
    super::soundness::lemma_open_connection(server, connection_id);
    let i = server.connection_index(connection_id)->Some_0;
    assert(pruned.connection_index(connection_id) == Some(i));
    let c = pruned.control_connections[i];
    assert(c.connection_id == connection_id);
    let t = pruned.claimed_tab(connection_id, params)->Ok_0;
    let geometry = ControlTabGeometry {
        last_interaction: pruned.next_activity_stamp,
        ..c.tab_geometry[t]
    };
    let after = server.handled(id, Some(connection_id), ControlMethod::TabClaimGeometry { params }).0;
    lemma_stored(pruned, i, t, geometry, true, after);
    assert forall|j: int| 0 <= j < server.control_connections.len() implies {
        &&& (#[trigger] after.control_connections[j]).connection_id
            == server.control_connections[j].connection_id
        &&& after.control_connections[j].tab_geometry == (if j == i {
            server.control_connections[i].tab_geometry.insert(t, geometry)
        } else {
            server.control_connections[j].tab_geometry
        })
    } by {
        assert(pruned.control_connections[j].connection_id
            == server.control_connections[j].connection_id);
        assert(pruned.control_connections[i].connection_id == connection_id);
    }
    (i, t)
}

/// A size that is stored is the size that was asked for. With a claim, or by
/// the tab's owner, it takes effect at once: the connection owns the tab and
/// the last thing to be done is to lay the tab out at that size. Else owners
/// stay as they are. No other size of any connection changes.
pub proof fn a_stored_size_is_the_one_asked_for(
    server: super::state::ServerModel,
    id: Seq<char>,
    connection_id: u64,
    params: TabSetGeometryParams,
)
    requires
        server.wf(),
        server.handled(id, Some(connection_id), ControlMethod::TabSetGeometry { params }).1
            == done(id),
    ensures
        ({
            let after = server.handled(
                id,
                Some(connection_id),
                ControlMethod::TabSetGeometry { params },
            ).0;
            let before = server.control_connections;
            let now = after.control_connections;
            let t = params.tab_id@;
            let owned = server.tab_geometry_controllers.contains_key(t)
                && server.tab_geometry_controllers[t] == connection_id;
            &&& now.len() == before.len()
            &&& forall|j: int|
                0 <= j < now.len() ==> {
                    let c = #[trigger] now[j];
                    &&& c.connection_id == before[j].connection_id
                    &&& c.connection_id != connection_id ==> c.tab_geometry
                        == before[j].tab_geometry
                    &&& c.connection_id == connection_id ==> {
                        let size = c.tab_geometry[t];
                        &&& c.tab_geometry.contains_key(t)
                        &&& size.cols == params.cols
                        &&& size.rows == params.rows
                        &&& size.cell_size.width_px == params.cell_width_px
                        &&& size.cell_size.height_px == params.cell_height_px
                        &&& size.chrome == params.chrome
                        &&& c.tab_geometry.remove(t) == before[j].tab_geometry.remove(t)
                    }
                }
            &&& exists|j: int|
                0 <= j < now.len() && (#[trigger] now[j]).connection_id == connection_id
            &&& params.claim || owned ==> {
                &&& after.tab_geometry_controllers == server.tab_geometry_controllers.insert(
                    t,
                    connection_id,
                )
                &&& after.effects.len() > 0
                &&& after.effects.last() matches super::state::EffectModel::LayOutTab {
                    target,
                    cols,
                    rows,
                    cell_size,
                }
                &&& server.app.parse_tab_id(t) == Some(target)
                &&& cols == params.cols && rows == params.rows
                &&& cell_size.width_px == params.cell_width_px && cell_size.height_px
                    == params.cell_height_px
            }
            &&& !params.claim && !owned ==> after.tab_geometry_controllers
                == server.tab_geometry_controllers
        }),
{
    let i = lemma_set(server, id, connection_id, params);
    let after = server.handled(
        id,
        Some(connection_id),
        ControlMethod::TabSetGeometry { params },
    ).0;
    let t = params.tab_id@;
    let now = after.control_connections;
    assert(now[i].connection_id == connection_id);
    assert forall|j: int| 0 <= j < now.len() && (#[trigger] now[j]).connection_id
        == connection_id implies j == i by {
        super::soundness::lemma_connection_index(server, j);
    }
    assert(now[i].tab_geometry.remove(t) =~= server.control_connections[i].tab_geometry.remove(t));
}

/// The tab that a claim is about: the one it names, else the one that shows
/// the terminal of the attach it names.
pub open spec fn claim_is_about(
    server: super::state::ServerModel,
    connection_id: u64,
    params: TabClaimGeometryParams,
    tab_id: Seq<char>,
) -> bool {
    match params.tab_id {
        Some(named) => named@ == tab_id,
        None => params.attach_id matches Some(attach_id) && exists|i: int, k: int|
            0 <= i < server.control_connections.len() && 0 <= k
                < server.control_connections[i].attaches.len()
                && server.control_connections[i].connection_id == connection_id && (
            #[trigger] server.control_connections[i].attaches[k]).attach_id == attach_id@
                && server.app.tab_of_terminal(server.control_connections[i].attaches[k].terminal_id)
                == Some(tab_id),
    }
}

/// A claim takes the tab it is about at the size that the connection stored
/// for it, which stays as it is: the connection owns the tab and the last thing
/// to be done is to lay the tab out at that size. No other tab changes hands,
/// and no other size of any connection changes.
pub proof fn a_claim_takes_the_stored_size(
    server: super::state::ServerModel,
    id: Seq<char>,
    connection_id: u64,
    params: TabClaimGeometryParams,
) -> (tab_id: Seq<char>)
    requires
        server.wf(),
        server.handled(id, Some(connection_id), ControlMethod::TabClaimGeometry { params }).1
            == done(id),
    ensures
        ({
            let after = server.handled(
                id,
                Some(connection_id),
                ControlMethod::TabClaimGeometry { params },
            ).0;
            let before = server.control_connections;
            let now = after.control_connections;
            &&& claim_is_about(server, connection_id, params, tab_id)
            &&& now.len() == before.len()
            &&& forall|j: int|
                0 <= j < now.len() ==> {
                    let c = #[trigger] now[j];
                    let size = c.tab_geometry[tab_id];
                    let stored = before[j].tab_geometry[tab_id];
                    &&& c.connection_id == before[j].connection_id
                    &&& c.tab_geometry.remove(tab_id) == before[j].tab_geometry.remove(tab_id)
                    &&& c.connection_id != connection_id ==> c.tab_geometry
                        == before[j].tab_geometry
                    &&& c.connection_id == connection_id ==> {
                        &&& c.tab_geometry.contains_key(tab_id)
                        &&& before[j].tab_geometry.contains_key(tab_id)
                        &&& size.cols == stored.cols && size.rows == stored.rows
                        &&& size.cell_size == stored.cell_size && size.chrome == stored.chrome
                        &&& after.effects.len() > 0
                        &&& after.effects.last() matches super::state::EffectModel::LayOutTab {
                            target,
                            cols,
                            rows,
                            cell_size,
                        }
                        &&& server.app.parse_tab_id(tab_id) == Some(target)
                        &&& cols == stored.cols && rows == stored.rows && cell_size
                            == stored.cell_size
                    }
                }
            &&& exists|j: int|
                0 <= j < now.len() && (#[trigger] now[j]).connection_id == connection_id
            &&& after.tab_geometry_controllers == server.tab_geometry_controllers.insert(
                tab_id,
                connection_id,
            )
        }),
{
    let (i, t) = lemma_claim(server, id, connection_id, params);
    let after = server.handled(
        id,
        Some(connection_id),
        ControlMethod::TabClaimGeometry { params },
    ).0;
    let now = after.control_connections;
    assert(now[i].connection_id == connection_id);
    assert forall|j: int| 0 <= j < now.len() && (#[trigger] now[j]).connection_id
        == connection_id implies j == i by {
        super::soundness::lemma_connection_index(server, j);
    }
    assert(now[i].tab_geometry.remove(t) =~= server.control_connections[i].tab_geometry.remove(t));
    lemma_claim_about(server, id, connection_id, params);
    t
}

/// An attach of a connection that is found after forgetting attaches whose
/// terminal went away was there before.
pub proof fn lemma_named_attach(server: super::state::ServerModel, i: int, attach_id: Seq<char>)
    requires
        0 <= i < server.control_connections.len(),
        server.connection_index(server.control_connections[i].connection_id) == Some(i),
        server.pruned(server.control_connections[i].connection_id).attach_of(
            server.control_connections[i].connection_id,
            attach_id,
        ) is Some,
    ensures
        ({
            let connection_id = server.control_connections[i].connection_id;
            let found = server.pruned(connection_id).attach_of(connection_id, attach_id)->Some_0;
            exists|k: int|
                0 <= k < server.control_connections[i].attaches.len() && (
                #[trigger] server.control_connections[i].attaches[k]).attach_id == attach_id
                    && server.control_connections[i].attaches[k].bare() == found.bare()
        }),
{
    let c = server.control_connections[i];
    let connection_id = c.connection_id;
    let pruned = server.pruned(connection_id);
    lemma_pruned_sizes(server, connection_id);
    let found = pruned.attach_of(connection_id, attach_id)->Some_0;
    let wanted = |a: super::state::AttachModel| a.attach_id == attach_id;
    crate::find::lemma_first_index(pruned.control_connections[i].attaches, wanted);
    let m = pruned.control_connections[i].attach_index(attach_id)->Some_0;
    if c.attaches.filter(server.gone()).len() == 0 {
        assert(c.attaches[m].attach_id == attach_id);
    } else {
        let stays = |a: super::state::AttachModel| !(server.gone())(a);
        let without = server.with_connection(i, c.without(server.gone()));
        super::soundness::lemma_geometry_sync_bare(without);
        super::soundness::lemma_bare_connections(pruned, without);
        super::soundness::lemma_bare_connection(
            pruned.control_connections[i],
            c.without(server.gone()),
        );
        let kept = c.without(server.gone()).attaches;
        assert(pruned.control_connections[i].attaches[m].bare() == kept[m].bare());
        c.attaches.lemma_filter_pred(stays, m);
        crate::find::lemma_filter_origin(c.attaches, stays, m);
        let k = choose|k: int| 0 <= k < c.attaches.len() && c.attaches[k] == kept[m];
        assert(c.attaches[k].bare() == found.bare());
        assert(c.attaches[k].attach_id == attach_id);
    }
}

/// The size that a connection stored for a tab.
pub open spec fn size_of(
    server: super::state::ServerModel,
    connection_id: u64,
    tab_id: Seq<char>,
) -> Option<ControlTabGeometry> {
    match server.connection(connection_id) {
        Some(c) => if c.tab_geometry.contains_key(tab_id) {
            Some(c.tab_geometry[tab_id])
        } else {
            None
        },
        None => None,
    }
}

/// Whether a request stores or claims a connection's size for a tab.
pub open spec fn touches(
    server: super::state::ServerModel,
    id: Seq<char>,
    stream: Option<u64>,
    method: ControlMethod,
    connection_id: u64,
    tab_id: Seq<char>,
) -> bool {
    &&& stream == Some(connection_id)
    &&& server.handled(id, stream, method).1 == done(id)
    &&& match method {
        ControlMethod::TabSetGeometry { params } => params.tab_id@ == tab_id,
        ControlMethod::TabClaimGeometry { params } => claim_is_about(
            server,
            connection_id,
            params,
            tab_id,
        ),
        _ => false,
    }
}

/// Whether a request claims a tab for a connection.
pub open spec fn claims(
    server: super::state::ServerModel,
    id: Seq<char>,
    stream: Option<u64>,
    method: ControlMethod,
    connection_id: u64,
    tab_id: Seq<char>,
) -> bool {
    &&& touches(server, id, stream, method, connection_id, tab_id)
    &&& method matches ControlMethod::TabSetGeometry { params } ==> params.claim
}

/// In a sound server the size of a connection is that of the one connection
/// with its id.
pub proof fn lemma_size_at(server: super::state::ServerModel, i: int, tab_id: Seq<char>)
    requires
        server.wf(),
        0 <= i < server.control_connections.len(),
    ensures
        server.connection(server.control_connections[i].connection_id) == Some(
            server.control_connections[i],
        ),
{
    super::soundness::lemma_connection_index(server, i);
    super::soundness::lemma_open_connection(server, server.control_connections[i].connection_id);
}

/// The one tab a claim is about.
pub proof fn lemma_one_tab(
    server: super::state::ServerModel,
    connection_id: u64,
    params: TabClaimGeometryParams,
    left: Seq<char>,
    right: Seq<char>,
)
    requires
        server.wf(),
        claim_is_about(server, connection_id, params, left),
        claim_is_about(server, connection_id, params, right),
    ensures
        left == right,
{
    if params.tab_id is None {
        let attach_id = params.attach_id->Some_0@;
        let (i, k) = choose|i: int, k: int|
            0 <= i < server.control_connections.len() && 0 <= k
                < server.control_connections[i].attaches.len()
                && server.control_connections[i].connection_id == connection_id && (
            #[trigger] server.control_connections[i].attaches[k]).attach_id == attach_id
                && server.app.tab_of_terminal(server.control_connections[i].attaches[k].terminal_id)
                == Some(left);
        let (j, l) = choose|i: int, k: int|
            0 <= i < server.control_connections.len() && 0 <= k
                < server.control_connections[i].attaches.len()
                && server.control_connections[i].connection_id == connection_id && (
            #[trigger] server.control_connections[i].attaches[k]).attach_id == attach_id
                && server.app.tab_of_terminal(server.control_connections[i].attaches[k].terminal_id)
                == Some(right);
        super::laws::attach_ids_are_unique(server, i, k, j, l);
    }
}

/// A claim is the latest interaction with its tab: afterwards the connection's
/// stored size carries a later stamp than every other connection's, and than
/// it carried before.
pub proof fn a_claim_is_the_latest_interaction(
    server: super::state::ServerModel,
    id: Seq<char>,
    method: ControlMethod,
    connection_id: u64,
    tab_id: Seq<char>,
    other: u64,
)
    requires
        server.wf(),
        server.next_activity_stamp < u64::MAX,
        stamps_are_past(server),
        claims(server, id, Some(connection_id), method, connection_id, tab_id),
    ensures
        ({
            let after = server.handled(id, Some(connection_id), method).0;
            &&& size_of(after, connection_id, tab_id) matches Some(mine)
            &&& size_of(server, connection_id, tab_id) matches Some(was) ==> was.last_interaction
                < mine.last_interaction
            &&& other != connection_id ==> (size_of(after, other, tab_id) matches Some(theirs)
                ==> theirs.last_interaction < mine.last_interaction)
        }),
{
    let after = server.handled(id, Some(connection_id), method).0;
    super::preservation::sound_servers_stay_sound(server, id, Some(connection_id), method);
    let i = match method {
        ControlMethod::TabSetGeometry { params } => lemma_set(server, id, connection_id, params),
        ControlMethod::TabClaimGeometry { params } => {
            let t = a_claim_takes_the_stored_size(server, id, connection_id, params);
            lemma_one_tab(server, connection_id, params, t, tab_id);
            let (i, u) = lemma_claim(server, id, connection_id, params);
            lemma_claim_about(server, id, connection_id, params);
            lemma_one_tab(server, connection_id, params, u, tab_id);
            i
        },
        _ => 0,
    };
    assert(after.control_connections[i].connection_id == connection_id);
    lemma_size_at(after, i, tab_id);
    lemma_size_at(server, i, tab_id);
    assert(server.control_connections[i].tab_geometry.contains_key(tab_id)
        ==> server.control_connections[i].tab_geometry[tab_id].last_interaction
        < server.next_activity_stamp);
    if other != connection_id {
        super::soundness::lemma_open_connection(after, other);
        if let Some(j) = after.connection_index(other) {
            assert(after.control_connections[j].tab_geometry
                == server.control_connections[j].tab_geometry);
            assert(server.control_connections[j].tab_geometry.contains_key(tab_id)
                ==> server.control_connections[j].tab_geometry[tab_id].last_interaction
                < server.next_activity_stamp);
        }
    }
}

/// A claim that is answered is about the tab it took.
pub proof fn lemma_claim_about(
    server: super::state::ServerModel,
    id: Seq<char>,
    connection_id: u64,
    params: TabClaimGeometryParams,
)
    requires
        server.handled(id, Some(connection_id), ControlMethod::TabClaimGeometry { params }).1
            == done(id),
    ensures
        claim_is_about(
            server,
            connection_id,
            params,
            server.pruned(connection_id).claimed_tab(connection_id, params)->Ok_0,
        ),
{
    let (i, t) = lemma_claim(server, id, connection_id, params);
    if params.tab_id is None {
        let attach_id = params.attach_id->Some_0@;
        lemma_named_attach(server, i, attach_id);
        lemma_pruned_sizes(server, connection_id);
        let found = server.pruned(connection_id).attach_of(connection_id, attach_id)->Some_0;
        let k = choose|k: int|
            0 <= k < server.control_connections[i].attaches.len() && (
            #[trigger] server.control_connections[i].attaches[k]).attach_id == attach_id
                && server.control_connections[i].attaches[k].bare() == found.bare();
        assert(server.control_connections[i].attaches[k].terminal_id == found.terminal_id);
    }
}

/// Whether two servers list the same connections with the same stored sizes.
pub open spec fn same_sizes(
    left: super::state::ServerModel,
    right: super::state::ServerModel,
) -> bool {
    &&& left.control_connections.len() == right.control_connections.len()
    &&& forall|j: int|
        0 <= j < right.control_connections.len() ==> {
            &&& (#[trigger] left.control_connections[j]).connection_id
                == right.control_connections[j].connection_id
            &&& left.control_connections[j].tab_geometry
                == right.control_connections[j].tab_geometry
        }
}

pub proof fn lemma_same_sizes_transitive(
    left: super::state::ServerModel,
    middle: super::state::ServerModel,
    right: super::state::ServerModel,
)
    requires
        same_sizes(left, middle),
        same_sizes(middle, right),
    ensures
        same_sizes(left, right),
{
    assert forall|j: int| 0 <= j < right.control_connections.len() implies {
        &&& (#[trigger] left.control_connections[j]).connection_id
            == right.control_connections[j].connection_id
        &&& left.control_connections[j].tab_geometry == right.control_connections[j].tab_geometry
    } by {
        assert(middle.control_connections[j].connection_id
            == right.control_connections[j].connection_id);
    }
}

proof fn lemma_frames_same_sizes(
    left: super::state::ServerModel,
    right: super::state::ServerModel,
)
    requires
        left.frames() == right.frames(),
    ensures
        same_sizes(left, right),
{
    super::soundness::lemma_frames(left, right);
    assert forall|j: int| 0 <= j < right.control_connections.len() implies {
        &&& (#[trigger] left.control_connections[j]).connection_id
            == right.control_connections[j].connection_id
        &&& left.control_connections[j].tab_geometry == right.control_connections[j].tab_geometry
    } by {
        assert(left.control_connections[j].frame() == right.control_connections[j].frame());
    }
}

proof fn lemma_bare_same_sizes(
    left: super::state::ServerModel,
    right: super::state::ServerModel,
)
    requires
        left.bare() == right.bare(),
    ensures
        same_sizes(left, right),
        left.next_activity_stamp == right.next_activity_stamp,
{
    lemma_bare_sizes(left, right);
}

/// Attaching leaves sizes and stamps alone.
pub proof fn lemma_attached_sizes(
    server: super::state::ServerModel,
    id: Seq<char>,
    connection_id: u64,
    params: crate::schema::TerminalAttachParams,
    resolved: super::attach::TargetModel,
)
    ensures
        same_sizes(server.attached_by(id, connection_id, params, resolved).0, server),
        server.attached_by(id, connection_id, params, resolved).0.next_activity_stamp
            == server.next_activity_stamp,
{
    let after = server.attached_by(id, connection_id, params, resolved).0;
    if let Ok((terminal_id, pane_id)) = server.attach_target(params.target@, resolved) {
        let retired = server.retired(connection_id, terminal_id);
        let taken_over = retired.taken_over(terminal_id, params.geometry);
        super::attach::lemma_retired_frames(server, connection_id, terminal_id);
        super::attach::lemma_taken_over_frames(retired, terminal_id, params.geometry);
        lemma_retired_stamp(server, connection_id, terminal_id);
        lemma_taken_over_stamp(retired, terminal_id, params.geometry);
        let cleared = if params.takeover {
            taken_over
        } else {
            retired
        };
        lemma_frames_same_sizes(cleared, server);
        lemma_joined_sizes(cleared, id, connection_id, terminal_id, pane_id, params);
        let joined = cleared.joined(id, connection_id, terminal_id, pane_id, params).0;
        lemma_same_sizes_transitive(joined, cleared, server);
    }
}

proof fn lemma_retired_stamp(
    server: super::state::ServerModel,
    connection_id: u64,
    terminal_id: Seq<char>,
)
    ensures
        server.retired(connection_id, terminal_id).next_activity_stamp
            == server.next_activity_stamp,
{
    if let Some(i) = server.connection_index(connection_id) {
        let c = server.control_connections[i];
        let here = super::attach::on_terminal(terminal_id);
        let own = c.attaches.filter(here);
        let without = server.with_connection(i, c.without(here));
        let released = without.released_attaches(own, TerminalDetachReason::Takeover);
        super::release::lemma_released_attaches_frame(
            without,
            own,
            TerminalDetachReason::Takeover,
        );
        let synced = released.synced_query_authority(terminal_id);
        super::soundness::lemma_geometry_sync_bare(synced);
        lemma_bare_sizes(synced.synced_control_geometry_tabs(), synced);
    }
}

proof fn lemma_taken_over_stamp(
    server: super::state::ServerModel,
    terminal_id: Seq<char>,
    geometry: crate::schema::TerminalAttachGeometry,
)
    ensures
        server.taken_over(terminal_id, geometry).next_activity_stamp
            == server.next_activity_stamp,
{
    let alone = server.without_direct_owner(terminal_id);
    let scope = if geometry == crate::schema::TerminalAttachGeometry::Terminal {
        super::state::EvictScope::All
    } else {
        super::state::EvictScope::TabFollowerTakeover
    };
    let without = alone.with_connections(
        alone.control_connections.map_values(
            |c: super::state::ConnectionModel| c.without(c.evictees(terminal_id, scope)),
        ),
    );
    let leavers = alone.control_connections.flat_map(
        |c: super::state::ConnectionModel| c.attaches.filter(c.evictees(terminal_id, scope)),
    );
    let released = without.released_attaches(leavers, TerminalDetachReason::Takeover);
    super::release::lemma_released_attaches_frame(
        without,
        leavers,
        TerminalDetachReason::Takeover,
    );
    let synced = released.synced_query_authority(terminal_id);
    super::soundness::lemma_geometry_sync_bare(synced);
    lemma_bare_sizes(synced.synced_control_geometry_tabs(), synced);
}

pub proof fn lemma_joined_sizes(
    server: super::state::ServerModel,
    id: Seq<char>,
    connection_id: u64,
    terminal_id: Seq<char>,
    pane_id: Option<Seq<char>>,
    params: crate::schema::TerminalAttachParams,
)
    ensures
        same_sizes(server.joined(id, connection_id, terminal_id, pane_id, params).0, server),
        server.joined(id, connection_id, terminal_id, pane_id, params).0.next_activity_stamp
            == server.next_activity_stamp,
{
    let after = server.joined(id, connection_id, terminal_id, pane_id, params).0;
    super::soundness::lemma_open_connection(server, connection_id);
    if let Some(i) = server.connection_index(connection_id) {
        if server.app.running(terminal_id) {
            let c = server.control_connections[i];
            let attach = c.next(server.next_attach_order, terminal_id, params);
            let grown = super::state::ConnectionModel {
                attaches: c.attaches.push(attach),
                handle: c.handle.registered(attach.attach_id),
                next_attach: (c.next_attach + 1) as u64,
                ..c
            };
            let listed = server.drawn(terminal_id, params.geometry).with_connection(
                i,
                grown,
            ).with_effects(server.attach_effects(id, c, terminal_id, pane_id, params));
            let synced = listed.synced_query_authority(terminal_id);
            super::soundness::lemma_query_sync_bare(listed, terminal_id);
            super::soundness::lemma_geometry_sync_bare(synced);
            lemma_bare_same_sizes(after, listed);
            lemma_same_sizes_transitive(after, listed, server);
        }
    }
}

/// Detaching leaves sizes and stamps alone.
pub proof fn lemma_detached_sizes(
    server: super::state::ServerModel,
    id: Seq<char>,
    connection_id: u64,
    attach_id: Seq<char>,
)
    ensures
        same_sizes(server.detached_by(id, connection_id, attach_id).0, server),
        server.detached_by(id, connection_id, attach_id).0.next_activity_stamp
            == server.next_activity_stamp,
{
    super::soundness::lemma_open_connection(server, connection_id);
    if let Some(i) = server.connection_index(connection_id) {
        let c = server.control_connections[i];
        if let Some(attach) = c.attach(attach_id) {
            let gone = super::requests::named(attach_id);
            let without = server.with_connection(i, c.without(gone));
            let leavers = c.attaches.filter(gone);
            let released = without.released_attaches(leavers, TerminalDetachReason::Closed);
            super::release::lemma_released_attaches_frame(
                without,
                leavers,
                TerminalDetachReason::Closed,
            );
            let synced = released.synced_query_authority(attach.terminal_id);
            super::soundness::lemma_query_sync_bare(released, attach.terminal_id);
            super::soundness::lemma_geometry_sync_bare(synced);
            let after = synced.synced_control_geometry_tabs();
            lemma_bare_same_sizes(after, released);
            lemma_same_sizes_transitive(after, released, server);
        }
    }
}

/// Closing a stream leaves the sizes of the others and the stamps alone.
pub proof fn lemma_closed_sizes(server: super::state::ServerModel, connection_id: u64)
    requires
        server.wf(),
        server.connection_index(connection_id) is Some,
    ensures
        same_sizes(
            server.released_connection(connection_id),
            super::ownership::left_behind(server, connection_id),
        ),
        server.released_connection(connection_id).next_activity_stamp
            == server.next_activity_stamp,
        server.released_connection(connection_id).app == server.app,
{
    super::ownership::a_closed_stream_leaves_no_trace(server, connection_id);
    let after = server.released_connection(connection_id);
    let rest = super::ownership::left_behind(server, connection_id);
    let moved = rest.with_connections(after.control_connections);
    assert(moved.bare() == rest.bare());
    lemma_bare_same_sizes(moved, rest);
    let i = server.connection_index(connection_id)->Some_0;
    let c = server.control_connections[i];
    let released = rest.released_attaches(c.attaches, TerminalDetachReason::Closed);
    super::release::lemma_released_attaches_frame(
        rest,
        c.attaches,
        TerminalDetachReason::Closed,
    );
    let disowned = released.disowned(connection_id);
    super::preservation::lemma_disowned_wf(server, connection_id);
    let tabs = crate::find::ascending_members(server.owned_tabs(connection_id));
    super::preservation::lemma_handed_over_wf(disowned, tabs);
    lemma_handed_over_stamp(disowned, tabs);
    let handed = disowned.handed_over(tabs);
    let synced = handed.synced_control_geometry_tabs();
    super::soundness::lemma_geometry_sync_bare(handed);
    let terminals = crate::find::distinct(c.attached_terminals());
    super::soundness::lemma_query_syncs_bare(synced, terminals);
    lemma_bare_sizes(synced.synced_query_authorities(terminals), handed);
}

proof fn lemma_handed_over_stamp(server: super::state::ServerModel, tabs: Seq<Seq<char>>)
    ensures
        server.handed_over(tabs).next_activity_stamp == server.next_activity_stamp,
    decreases tabs.len(),
{
    if tabs.len() > 0 {
        let rest = server.handed_over(tabs.drop_last());
        lemma_handed_over_stamp(server, tabs.drop_last());
        if let Some(i) = rest.successor(tabs.last()) {
            let c = rest.control_connections[i];
            let geometry = c.tab_geometry[tabs.last()];
            super::soundness::lemma_claimed_bare(rest, c.connection_id, tabs.last(), geometry);
            let claimed = rest.claimed(c.connection_id, tabs.last(), geometry);
            assert(claimed.next_activity_stamp == claimed.bare().next_activity_stamp);
            assert(rest.next_activity_stamp == rest.bare().next_activity_stamp);
        }
    }
}

/// Where the same connections are listed with the same sizes, lookups agree.
pub proof fn lemma_same_size(
    left: super::state::ServerModel,
    right: super::state::ServerModel,
    connection_id: u64,
    tab_id: Seq<char>,
)
    requires
        same_sizes(left, right),
    ensures
        size_of(left, connection_id, tab_id) == size_of(right, connection_id, tab_id),
{
    let l = left.control_connections;
    let r = right.control_connections;
    let p = |c: super::state::ConnectionModel| c.connection_id == connection_id;
    assert forall|i: int| 0 <= i < l.len() implies #[trigger] p(l[i]) == p(r[i]) by {
        assert(l[i].connection_id == r[i].connection_id);
    }
    crate::find::lemma_first_index(l, p);
    crate::find::lemma_first_index(r, p);
    match (crate::find::first_index(l, p), crate::find::first_index(r, p)) {
        (Some(i), Some(j)) => {
            assert(p(l[i]) == p(r[i]));
            assert(p(l[j]) == p(r[j]));
            assert(l[i].tab_geometry == r[i].tab_geometry);
        },
        (Some(i), None) => {
            assert(p(l[i]) == p(r[i]));
        },
        (None, Some(j)) => {
            assert(p(l[j]) == p(r[j]));
        },
        (None, None) => {},
    }
}

/// A request changes no size but the one it stores or claims: every other size
/// of every connection stays, unless its connection is closed by the request.
pub proof fn requests_change_one_size(
    server: super::state::ServerModel,
    id: Seq<char>,
    stream: Option<u64>,
    method: ControlMethod,
    connection_id: u64,
    tab_id: Seq<char>,
)
    requires
        server.wf(),
        server.has_room(stream, method),
        !touches(server, id, stream, method, connection_id, tab_id),
    ensures
        ({
            let after = server.handled(id, stream, method).0;
            size_of(after, connection_id, tab_id) == (if method is ControlClose && stream == Some(
                connection_id,
            ) {
                None
            } else {
                size_of(server, connection_id, tab_id)
            })
        }),
{
    let after = server.handled(id, stream, method).0;
    let asking = stream->Some_0;
    let pruned = server.pruned(asking);
    lemma_pruned_sizes(server, asking);
    assert(same_sizes(pruned, server));
    super::preservation::sound_servers_stay_sound(server, id, stream, method);
    super::soundness::lemma_open_connection(server, connection_id);
    super::soundness::lemma_open_connection(after, connection_id);
    match method {
        ControlMethod::ControlOpen { params } => {
            if stream == Some(0u64) {
                lemma_opened_size(
                    server,
                    crate::schema::client_view(params.client),
                    after,
                    connection_id,
                    tab_id,
                );
            }
        },
        ControlMethod::ControlClose => {
            if let Some(closed) = stream {
                if server.connection_index(closed) is Some {
                    lemma_closed_sizes(server, closed);
                    let rest = super::ownership::left_behind(server, closed);
                    lemma_same_size(after, rest, connection_id, tab_id);
                    lemma_left_size(server, closed, connection_id, tab_id);
                }
            }
        },
        ControlMethod::TerminalAttach { params, resolved } => {
            if server.stream_refusal(stream) is None {
                lemma_attached_sizes(pruned, id, asking, params, resolved@);
                lemma_same_sizes_transitive(after, pruned, server);
                lemma_same_size(after, server, connection_id, tab_id);
            }
        },
        ControlMethod::TerminalDetach { params } => {
            if server.stream_refusal(stream) is None {
                lemma_detached_sizes(pruned, id, asking, params.attach_id@);
                lemma_same_sizes_transitive(after, pruned, server);
                lemma_same_size(after, server, connection_id, tab_id);
            }
        },
        ControlMethod::TerminalSnapshot { params } => {
            if server.stream_refusal(stream) is None {
                lemma_same_size(pruned, server, connection_id, tab_id);
            }
        },
        ControlMethod::TerminalResize { params } => {
            if server.stream_refusal(stream) is None {
                assert(same_sizes(after, pruned));
                lemma_same_sizes_transitive(after, pruned, server);
                lemma_same_size(after, server, connection_id, tab_id);
            }
        },
        ControlMethod::TabSetGeometry { params } => {
            if server.handled(id, stream, method).1 == done(id) {
                let i = lemma_set(server, id, asking, params);
                assert(after.control_connections[i].tab_geometry.remove(params.tab_id@)
                    =~= server.control_connections[i].tab_geometry.remove(params.tab_id@));
                lemma_one_size(server, after, i, params.tab_id@, connection_id, tab_id);
            } else if server.stream_refusal(stream) is None {
                assert(same_sizes(after, pruned));
                lemma_same_sizes_transitive(after, pruned, server);
                lemma_same_size(after, server, connection_id, tab_id);
            }
        },
        ControlMethod::TabClaimGeometry { params } => {
            if server.handled(id, stream, method).1 == done(id) {
                let (i, t) = lemma_claim(server, id, asking, params);
                lemma_claim_about(server, id, asking, params);
                assert(after.control_connections[i].tab_geometry.remove(t)
                    =~= server.control_connections[i].tab_geometry.remove(t));
                lemma_one_size(server, after, i, t, connection_id, tab_id);
            } else if server.stream_refusal(stream) is None {
                assert(same_sizes(after, pruned));
                lemma_same_sizes_transitive(after, pruned, server);
                lemma_same_size(after, server, connection_id, tab_id);
            }
        },
        _ => {},
    }
}

/// A size other than the one that was stored, of the connection at `i`.
proof fn lemma_one_size(
    server: super::state::ServerModel,
    after: super::state::ServerModel,
    i: int,
    stored: Seq<char>,
    connection_id: u64,
    tab_id: Seq<char>,
)
    requires
        server.wf(),
        after.wf(),
        0 <= i < server.control_connections.len(),
        after.control_connections.len() == server.control_connections.len(),
        forall|j: int|
            0 <= j < server.control_connections.len() ==> {
                &&& (#[trigger] after.control_connections[j]).connection_id
                    == server.control_connections[j].connection_id
                &&& j != i ==> after.control_connections[j].tab_geometry
                    == server.control_connections[j].tab_geometry
            },
        after.control_connections[i].tab_geometry.remove(stored)
            == server.control_connections[i].tab_geometry.remove(stored),
        connection_id != server.control_connections[i].connection_id || tab_id != stored,
    ensures
        size_of(after, connection_id, tab_id) == size_of(server, connection_id, tab_id),
{
    super::soundness::lemma_open_connection(server, connection_id);
    super::soundness::lemma_open_connection(after, connection_id);
    if server.is_open(connection_id) {
        let j = server.connection_index(connection_id)->Some_0;
        assert(after.control_connections[j].connection_id == connection_id);
        lemma_size_at(after, j, tab_id);
        lemma_size_at(server, j, tab_id);
        if j == i {
            let l = after.control_connections[i].tab_geometry;
            let r = server.control_connections[i].tab_geometry;
            assert(l.remove(stored).contains_key(tab_id) == r.remove(stored).contains_key(tab_id));
            assert(l.remove(stored)[tab_id] == r.remove(stored)[tab_id]);
        }
    } else if after.is_open(connection_id) {
        let j = after.connection_index(connection_id)->Some_0;
        assert(server.control_connections[j].connection_id == connection_id);
    }
}

proof fn lemma_opened_size(
    server: super::state::ServerModel,
    client: Option<crate::schema::ClientModel>,
    after: super::state::ServerModel,
    connection_id: u64,
    tab_id: Seq<char>,
)
    requires
        server.wf(),
        after.wf(),
        super::state::CONTROL_CONNECTION_ID_BASE + server.next_control_connection_id < u64::MAX,
        after.control_connections == server.control_connections.push(
            server.opened_connection(client),
        ),
    ensures
        size_of(after, connection_id, tab_id) == size_of(server, connection_id, tab_id),
{
    super::laws::opened_ids_are_fresh(server, client);
    super::soundness::lemma_open_connection(server, connection_id);
    super::soundness::lemma_open_connection(after, connection_id);
    if let Some(j) = after.connection_index(connection_id) {
        if j < server.control_connections.len() {
            assert(after.control_connections[j] == server.control_connections[j]);
            lemma_size_at(server, j, tab_id);
        } else {
            assert(after.control_connections[j] == server.opened_connection(client));
            assert(!server.is_open(connection_id));
        }
    } else if let Some(j) = server.connection_index(connection_id) {
        assert(after.control_connections[j] == server.control_connections[j]);
    }
}

/// Where a connection is left out, the others keep their sizes.
proof fn lemma_left_size(
    server: super::state::ServerModel,
    closed: u64,
    connection_id: u64,
    tab_id: Seq<char>,
)
    requires
        server.wf(),
        server.connection_index(closed) is Some,
    ensures
        size_of(super::ownership::left_behind(server, closed), connection_id, tab_id) == (
        if connection_id == closed {
            None
        } else {
            size_of(server, connection_id, tab_id)
        }),
{
    let rest = super::ownership::left_behind(server, closed);
    super::soundness::lemma_open_connection(server, closed);
    let i = server.connection_index(closed)->Some_0;
    super::soundness::lemma_open_connection(server, connection_id);
    super::soundness::lemma_open_connection(rest, connection_id);
    if let Some(k) = rest.connection_index(connection_id) {
        let at = if k < i {
            k
        } else {
            k + 1
        };
        assert(rest.control_connections[k] == server.control_connections[at]);
        lemma_size_at(server, at, tab_id);
        super::soundness::lemma_connection_index(server, at);
    } else if let Some(j) = server.connection_index(connection_id) {
        if j != i {
            let at = if j < i {
                j
            } else {
                j - 1
            };
            assert(rest.control_connections[at] == server.control_connections[j]);
        }
    }
}

} // verus!
