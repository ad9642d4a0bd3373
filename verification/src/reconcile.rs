//! The reconciler: the sole consumer of inbound events. Structural
//! echoes re-apply the same idempotent transformers; traffic events
//! drive the animation markers; stale ids and malformed snapshots are
//! dropped, never applied. Until the bootstrap snapshot has arrived,
//! only a topology event is accepted.

use vstd::prelude::*;

use crate::bootstrap::{snapshot_nodes, snapshot_ok, topology};
use crate::channel::{channel_try_recv, RecvOutcome};
use crate::commands::{GUICommands, GUIEvents};
use crate::gate::{ask_for_file_list, crash as request_crash, get_file, get_list, logout,
    register, remove_sender, add_sender, send_message, set_pdr, spawn, spawn_check};
use crate::model::{crash_edges, crash_nodes, link_edges, link_nodes, mark_dropped, mark_sent,
    nv_has, nv_idx, spawn_nodes, spawned_drone, unlink_edges, unlink_nodes, EdgeV};
use crate::node::{ChatParam, NodeGUI};
use crate::state::{lemma_unique_id_index, GUIState};
use crate::types::{GateError, NodeColor};

verus! {

/// Some file-list entry carries this server id.
pub open spec fn fl_has(fs: Seq<(u8, Vec<String>)>, id: u8) -> bool {
    exists|i: int| 0 <= i < fs.len() && (#[trigger] fs[i]).0 == id
}

impl GUIState {
    /// Store the peer list a chat client received; a stale id is
    /// dropped. Only that client's panel state moves.
    pub fn apply_client_list(&mut self, client: u8, list: Vec<u8>)
        requires
            old(self).wf(),
        ensures
            final(self).wf(),
            final(self).nodes_v() == old(self).nodes_v(),
            final(self).edges == old(self).edges,
            final(self).same_but_model(*old(self)),
            final(self).nodes@.len() == old(self).nodes@.len(),
            !nv_has(old(self).nodes_v(), client) ==> final(self).nodes == old(self).nodes,
            nv_has(old(self).nodes_v(), client) ==> (forall|j: int|
                0 <= j < old(self).nodes@.len() && j != nv_idx(old(self).nodes_v(), client)
                    ==> #[trigger] final(self).nodes@[j] == old(self).nodes@[j]) && final(self).nodes@[nv_idx(old(self).nodes_v(), client)] == (NodeGUI {
                chat_params: (ChatParam {
                    client_list_value: Some(list),
                    ..old(self).nodes@[nv_idx(old(self).nodes_v(), client)].chat_params
                }),
                ..old(self).nodes@[nv_idx(old(self).nodes_v(), client)]
            }),
    {
        let ghost ns0 = self.nodes_v();
        proof {
            lemma_unique_id_index(ns0, client);
        }
        let oi = self.find_node(client);
        if oi.is_none() {
            return ;
        }
        let i = oi.unwrap();
        let node = &mut self.nodes[i];
        node.chat_params.client_list_value = Some(list);
        proof {
            assert(ns0[i as int].id == client);
            assert(i as int == nv_idx(ns0, client));
            assert(self.nodes_v() =~= ns0);
        }
    }

    /// Store a message a chat client received; a stale id is dropped.
    /// Only that client's panel state moves.
    pub fn apply_message_received(&mut self, dest: u8, msg: String)
        requires
            old(self).wf(),
        ensures
            final(self).wf(),
            final(self).nodes_v() == old(self).nodes_v(),
            final(self).edges == old(self).edges,
            final(self).same_but_model(*old(self)),
            final(self).nodes@.len() == old(self).nodes@.len(),
            !nv_has(old(self).nodes_v(), dest) ==> final(self).nodes == old(self).nodes,
            nv_has(old(self).nodes_v(), dest) ==> (forall|j: int|
                0 <= j < old(self).nodes@.len() && j != nv_idx(old(self).nodes_v(), dest)
                    ==> #[trigger] final(self).nodes@[j] == old(self).nodes@[j]) && final(self).nodes@[nv_idx(old(self).nodes_v(), dest)] == (NodeGUI {
                chat_params: (ChatParam {
                    recv_message_client_value: Some(msg),
                    ..old(self).nodes@[nv_idx(old(self).nodes_v(), dest)].chat_params
                }),
                ..old(self).nodes@[nv_idx(old(self).nodes_v(), dest)]
            }),
    {
        let ghost ns0 = self.nodes_v();
        proof {
            lemma_unique_id_index(ns0, dest);
        }
        let oi = self.find_node(dest);
        if oi.is_none() {
            return ;
        }
        let i = oi.unwrap();
        let node = &mut self.nodes[i];
        node.chat_params.recv_message_client_value = Some(msg);
        proof {
            assert(ns0[i as int].id == dest);
            assert(i as int == nv_idx(ns0, dest));
            assert(self.nodes_v() =~= ns0);
        }
    }

    /// Store a server's file list, replacing this server's earlier list
    /// if one is held; nothing else moves.
    pub fn apply_file_list(&mut self, server: u8, items: Vec<String>)
        requires
            old(self).wf(),
        ensures
            final(self).wf(),
            final(self).nodes == old(self).nodes,
            final(self).edges == old(self).edges,
            final(self).sender == old(self).sender,
            final(self).receiver == old(self).receiver,
            final(self).initialized == old(self).initialized,
            final(self).show_animation == old(self).show_animation,
            final(self).spawn == old(self).spawn,
            !fl_has(old(self).file_list@, server) ==> final(self).file_list@ == old(self).file_list@.push((server, items)),
            fl_has(old(self).file_list@, server) ==> exists|i: int|
                0 <= i < old(self).file_list@.len() && (#[trigger] old(self).file_list@[i]).0
                    == server && (forall|j: int|
                    0 <= j < i ==> (#[trigger] old(self).file_list@[j]).0 != server) && final(self).file_list@ == old(self).file_list@.update(i, (server, items)),
    {
        let mut i: usize = 0;
        while i < self.file_list.len()
            invariant
                i <= self.file_list@.len(),
                self == old(self),
                old(self).wf(),
                forall|j: int| 0 <= j < i ==> (#[trigger] self.file_list@[j]).0 != server,
            decreases self.file_list@.len() - i,
        {
            if self.file_list[i].0 == server {
                let slot = &mut self.file_list[i];
                *slot = (server, items);
                proof {
                    assert(self.nodes_v() =~= old(self).nodes_v());
                    assert(self.edges_v() =~= old(self).edges_v());
                }
                return ;
            }
            i += 1;
        }
        proof {
            assert(!fl_has(self.file_list@, server));
        }
        self.file_list.push((server, items));
    }
}

/// Apply one authoritative event to the model at `now_ms` milliseconds.
/// Structural echoes land through the same idempotent transformers the
/// gate uses; events naming unknown ids, malformed spawn echoes and
/// malformed snapshots are dropped whole.
pub fn process_event(state: &mut GUIState, event: GUIEvents, now_ms: u64)
    requires
        old(state).wf(),
    ensures
        final(state).wf(),
        final(state).sender == old(state).sender,
        final(state).receiver == old(state).receiver,
        final(state).show_animation == old(state).show_animation,
        final(state).spawn == old(state).spawn,
        (match event {
            GUIEvents::Crash(id) => final(state).nodes_v() == crash_nodes(
                old(state).nodes_v(),
                id,
            ) && (nv_has(old(state).nodes_v(), id) ==> final(state).edges_v() == crash_edges(
                old(state).edges_v(),
                id,
            )) && (!nv_has(old(state).nodes_v(), id) ==> final(state).edges == old(state).edges),
            GUIEvents::AddSender(a, b) => if nv_has(old(state).nodes_v(), a) && nv_has(
                old(state).nodes_v(),
                b,
            ) && a != b {
                final(state).nodes_v() == link_nodes(old(state).nodes_v(), a, b) && final(state).edges_v() == link_edges(old(state).edges_v(), a, b)
            } else {
                final(state).nodes == old(state).nodes && final(state).edges == old(state).edges
            },
            GUIEvents::RemoveSender(a, b) => if a != b {
                final(state).nodes_v() == unlink_nodes(old(state).nodes_v(), a, b) && final(state).edges_v() == unlink_edges(old(state).edges_v(), a, b)
            } else {
                final(state).nodes == old(state).nodes && final(state).edges == old(state).edges
            },
            GUIEvents::Spawn(id, nbrs, pdr) => if spawn_check(
                old(state).nodes_v(),
                id,
                nbrs@,
                pdr,
            ) is Ok {
                (exists|x: u64, y: u64|
                    final(state).nodes_v() == spawn_nodes(
                        old(state).nodes_v(),
                        #[trigger] spawned_drone(id, nbrs@, pdr, x, y),
                    )) && final(state).edges_v() == old(state).edges_v().push(
                    EdgeV { src: id, targets: nbrs@, color: NodeColor::Gray },
                )
            } else {
                final(state).nodes == old(state).nodes && final(state).edges == old(state).edges
            },
            GUIEvents::PacketSent(src, _, k) => if old(state).show_animation && nv_has(
                old(state).nodes_v(),
                src,
            ) {
                final(state).nodes_v() == old(state).nodes_v().update(
                    nv_idx(old(state).nodes_v(), src),
                    mark_sent(old(state).nodes_v()[nv_idx(old(state).nodes_v(), src)], k, now_ms),
                ) && final(state).edges == old(state).edges
            } else {
                final(state).nodes == old(state).nodes && final(state).edges == old(state).edges
            },
            GUIEvents::PacketDropped(src, _) => if old(state).show_animation && nv_has(
                old(state).nodes_v(),
                src,
            ) {
                final(state).nodes_v() == old(state).nodes_v().update(
                    nv_idx(old(state).nodes_v(), src),
                    mark_dropped(old(state).nodes_v()[nv_idx(old(state).nodes_v(), src)], now_ms),
                ) && final(state).edges == old(state).edges
            } else {
                final(state).nodes == old(state).nodes && final(state).edges == old(state).edges
            },
            GUIEvents::Topology(d, c, s) => (snapshot_ok(snapshot_nodes(d@, c@, s@)) ==> final(state).initialized) && (!snapshot_ok(snapshot_nodes(d@, c@, s@)) ==> *final(state) == *old(state)),
            GUIEvents::ClientList(_, _) => final(state).nodes_v() == old(state).nodes_v() && final(state).edges == old(state).edges,
            GUIEvents::MessageReceived(_, _, _) => final(state).nodes_v() == old(state).nodes_v()
                && final(state).edges == old(state).edges,
            GUIEvents::FileList(_, _) => final(state).nodes == old(state).nodes && final(state).edges == old(state).edges,
        }),
{
    match event {
        GUIEvents::Topology(d, c, s) => {
            let _ = topology(state, &d, &c, &s);
        },
        GUIEvents::ClientList(client, list) => {
            state.apply_client_list(client, list);
        },
        GUIEvents::FileList(server, items) => {
            state.apply_file_list(server, items);
        },
        GUIEvents::PacketSent(src, _, k) => {
            if state.show_animation {
                state.apply_packet_sent(src, k, now_ms);
            }
        },
        GUIEvents::PacketDropped(src, _) => {
            if state.show_animation {
                state.apply_packet_dropped(src, now_ms);
            }
        },
        GUIEvents::MessageReceived(_, dest, msg) => {
            state.apply_message_received(dest, msg);
        },
        GUIEvents::RemoveSender(a, b) => {
            if a != b {
                state.apply_remove_link(a, b);
            }
        },
        GUIEvents::AddSender(a, b) => {
            if a != b {
                let has_a = state.contains_id(a);
                let has_b = state.contains_id(b);
                if has_a && has_b {
                    state.apply_add_link(a, b);
                }
            }
        },
        GUIEvents::Spawn(id, nbrs, pdr) => {
            let c = state.check_spawn(id, &nbrs, pdr);
            if c.is_ok() {
                proof {
                    crate::gate::lemma_spawn_list_ok(state.nodes_v(), id, nbrs@, 0);
                    assert forall|p: int, q: int|
                        0 <= p < q < nbrs@.len() implies nbrs@[p] != nbrs@[q] by {
                        if nbrs@[p] == nbrs@[q] {
                            assert(nbrs@.subrange(0, q)[p] == nbrs@[q]);
                            assert(nbrs@.subrange(0, q).contains(nbrs@[q]));
                        }
                    }
                    assert(!nbrs@.contains(id)) by {
                        if nbrs@.contains(id) {
                            let w = choose|w: int| 0 <= w < nbrs@.len() && nbrs@[w] == id;
                        }
                    }
                }
                let x = crate::rng::random_in_range(0, crate::types::WIDTH);
                let y = crate::rng::random_in_range(0, crate::types::HEIGHT);
                state.apply_spawn(id, &nbrs, pdr, x, y);
            }
        },
        GUIEvents::Crash(id) => {
            state.apply_crash(id);
        },
    }
}

/// The event side of the sync channel: drains at most one inbound event
/// per tick and hands it to the reconciler.
pub struct EventHandler;

impl Default for EventHandler {
    fn default() -> Self {
        Self::new()
    }
}

impl EventHandler {
    pub fn new() -> (r: Self) {
        EventHandler
    }

    /// Drain at most one event and apply it. `Err` reports a gone peer,
    /// which is fatal for the session; the state is then untouched.
    pub fn handle_events(&self, state: &mut GUIState, now_ms: u64) -> (r: Result<(), GateError>)
        requires
            old(state).wf(),
        ensures
            final(state).wf(),
            final(state).sender == old(state).sender,
            final(state).receiver == old(state).receiver,
            r is Err ==> *final(state) == *old(state) && r == Result::<(), GateError>::Err(
                GateError::PeerGone,
            ),
    {
        match channel_try_recv(&state.receiver) {
            RecvOutcome::Event(ev) => {
                process_event(state, ev, now_ms);
                Ok(())
            },
            RecvOutcome::Empty => Ok(()),
            RecvOutcome::Disconnected => Err(GateError::PeerGone),
        }
    }

    /// Before the bootstrap arrived: drain at most one event, apply it
    /// only if it is a topology snapshot, and drop anything else as a
    /// protocol violation. `Err` reports a gone peer; the state is then
    /// untouched.
    pub fn handle_initialization(&self, state: &mut GUIState, now_ms: u64) -> (r: Result<
        (),
        GateError,
    >)
        requires
            old(state).wf(),
        ensures
            final(state).wf(),
            final(state).sender == old(state).sender,
            final(state).receiver == old(state).receiver,
            final(state).spawn == old(state).spawn,
            final(state).show_animation == old(state).show_animation,
            r is Err ==> *final(state) == *old(state) && r == Result::<(), GateError>::Err(
                GateError::PeerGone,
            ),
    {
        match channel_try_recv(&state.receiver) {
            RecvOutcome::Event(ev) => {
                if let GUIEvents::Topology(d, c, s) = ev {
                    let _ = topology(state, &d, &c, &s);
                }
                Ok(())
            },
            RecvOutcome::Empty => Ok(()),
            RecvOutcome::Disconnected => Err(GateError::PeerGone),
        }
    }
}

impl GUIState {
    /// Clear every node's pending command; nothing else moves.
    pub fn clear_commands(&mut self)
        requires
            old(self).wf(),
        ensures
            final(self).wf(),
            final(self).nodes_v() == old(self).nodes_v(),
            final(self).edges == old(self).edges,
            final(self).same_but_model(*old(self)),
            final(self).nodes@.len() == old(self).nodes@.len(),
            forall|j: int|
                0 <= j < old(self).nodes@.len() ==> #[trigger] final(self).nodes@[j] == (NodeGUI {
                    command: None,
                    ..old(self).nodes@[j]
                }),
    {
        let ghost ns0 = self.nodes_v();
        let mut i: usize = 0;
        while i < self.nodes.len()
            invariant
                i <= self.nodes@.len(),
                self.nodes@.len() == old(self).nodes@.len(),
                self.nodes_v() == ns0,
                ns0 == old(self).nodes_v(),
                self.edges == old(self).edges,
                self.same_but_model(*old(self)),
                forall|j: int|
                    0 <= j < i ==> #[trigger] self.nodes@[j] == (NodeGUI {
                        command: None,
                        ..old(self).nodes@[j]
                    }),
                forall|j: int| i <= j < self.nodes@.len() ==> #[trigger] self.nodes@[j] == old(self).nodes@[j],
            decreases self.nodes@.len() - i,
        {
            let ghost pre = self.nodes_v();
            let node = &mut self.nodes[i];
            node.command = None;
            proof {
                assert(self.nodes_v() =~= pre);
            }
            i += 1;
        }
    }
}

/// The command side of the sync channel: once per tick, every pending
/// node command runs through validation, then all pending markers are
/// cleared.
pub struct CommandHandler;

impl CommandHandler {
    pub fn new() -> (r: Self) {
        CommandHandler
    }

    /// Route one pending command through the matching gate action. A
    /// spawn marker is not routed here; the spawn form's own pump does
    /// that.
    pub fn dispatch_command(&self, state: &mut GUIState, command: &GUICommands)
        requires
            old(state).wf(),
        ensures
            final(state).wf(),
            final(state).receiver == old(state).receiver,
            final(state).sender == old(state).sender,
            (match *command {
                GUICommands::Crash(id) => *final(state) == *old(state) || (crate::gate::crash_check(
                    old(state).nodes_v(),
                    id,
                ) is Ok && final(state).nodes_v() == crash_nodes(old(state).nodes_v(), id)),
                GUICommands::RemoveSender(a, b) => *final(state) == *old(state) || (
                crate::gate::remove_link_check(old(state).nodes_v(), a, b) is Ok && final(state).nodes_v() == unlink_nodes(old(state).nodes_v(), a, b)),
                GUICommands::AddSender(a, b) => *final(state) == *old(state) || (
                crate::gate::add_link_check(old(state).nodes_v(), a, b) is Ok && final(state).nodes_v() == link_nodes(old(state).nodes_v(), a, b)),
                GUICommands::SetPDR(id, pdr) => *final(state) == *old(state) || (
                crate::gate::set_pdr_check(old(state).nodes_v(), id, pdr) is Ok && final(state).nodes_v() == old(state).nodes_v().update(
                    crate::model::nv_idx(old(state).nodes_v(), id),
                    crate::model::with_pdr(
                        crate::model::nv_at(old(state).nodes_v(), id),
                        pdr,
                    ),
                )),
                GUICommands::Spawn(_, _, _) => *final(state) == *old(state),
                _ => *final(state) == *old(state),
            }),
    {
        match command {
            GUICommands::Crash(id) => {
                let _ = request_crash(state, *id);
            },
            GUICommands::RemoveSender(a, b) => {
                let _ = remove_sender(state, *a, *b);
            },
            GUICommands::AddSender(a, b) => {
                let _ = add_sender(state, *a, *b);
            },
            GUICommands::SetPDR(id, pdr) => {
                let _ = set_pdr(state, *id, *pdr);
            },
            GUICommands::SendMessageTo(src, dest, msg) => {
                let _ = send_message(state, *src, *dest, msg.clone());
            },
            GUICommands::RegisterTo(client, server) => {
                let _ = register(state, *client, *server);
            },
            GUICommands::GetClientList(client) => {
                let _ = get_list(state, *client);
            },
            GUICommands::LogOut(client, server) => {
                let _ = logout(state, *client, *server);
            },
            GUICommands::AskForFileList(client, server) => {
                let _ = ask_for_file_list(state, *client, *server);
            },
            GUICommands::GetFile(client, server, title) => {
                let _ = get_file(state, *client, *server, title.clone());
            },
            GUICommands::Spawn(_, _, _) => {},
        }
    }

    /// One command pump tick: run every node's pending command through
    /// validation, clear all pending markers, then run and clear a pending
    /// spawn request.
    pub fn handle_commands(&self, state: &mut GUIState)
        requires
            old(state).wf(),
        ensures
            final(state).wf(),
            final(state).receiver == old(state).receiver,
            final(state).sender == old(state).sender,
            forall|j: int|
                0 <= j < final(state).nodes@.len() ==> (#[trigger] final(state).nodes@[j]).command is None,
            final(state).spawn.command is None,
    {
        let mut pending: Vec<GUICommands> = Vec::new();
        let mut i: usize = 0;
        while i < state.nodes.len()
            invariant
                i <= state.nodes@.len(),
                *state == *old(state),
            decreases state.nodes@.len() - i,
        {
            let cmd = &state.nodes[i].command;
            match cmd {
                Some(c) => {
                    let copy = c.clone();
                    pending.push(copy);
                },
                None => {},
            }
            i += 1;
        }
        let mut k: usize = 0;
        while k < pending.len()
            invariant
                k <= pending@.len(),
                state.wf(),
                state.receiver == old(state).receiver,
                state.sender == old(state).sender,
            decreases pending@.len() - k,
        {
            self.dispatch_command(state, &pending[k]);
            k += 1;
        }
        state.clear_commands();
        let spawn_cmd = state.spawn.command.clone();
        match spawn_cmd {
            Some(GUICommands::Spawn(id, nbrs, pdr)) => {
                let _ = spawn(state, id, &nbrs, pdr);
            },
            _ => {},
        }
        state.spawn.command = None;
        proof {
            assert forall|j: int| 0 <= j < state.nodes@.len() implies (#[trigger] state.nodes@[j]).command is None by {}
        }
    }
}

} // verus!
