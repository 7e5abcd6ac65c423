//! The manager: it runs at most one swarm at a time and changes rooms without a restart.

use crate::app_state;
use crate::app_state::{clear_shared_state, set_node_status, SharedState};
use crate::identity::Identity;
use crate::text::joined;
use crate::types::{ManagerCmd, NodeStatus, RoomConfig, StoredPath};
use vstd::prelude::*;

verus! {

/// What a manager remembers: whether it has a swarm running, and the identity of the node.
#[derive(Debug, PartialEq, Eq)]
pub struct SwarmManager {
    pub running: bool,
    pub identity: Identity,
}

/// What is to be done on a command, in this order: abort the swarm that runs, where `abort` says
/// so, before anyone else sees the shared state; remove the temporary files of the room that is
/// left; then what `next` says.
#[derive(Debug, PartialEq, Eq)]
pub struct ManagerStep {
    pub abort: bool,
    pub remove: Vec<StoredPath>,
    pub next: NextRoom,
}

/// What follows once a room was left.
#[derive(Debug, PartialEq, Eq)]
pub enum NextRoom {
    /// Run a swarm in this room, as this peer.
    Spawn { room: RoomConfig, identity: Identity },
    /// Announce that a room is awaited.
    AnnounceAwaiting,
}

/// The status of a node while a command is carried out.
pub open spec fn status_after(cmd: ManagerCmd) -> NodeStatus {
    match cmd {
        ManagerCmd::StartRoom(_) => NodeStatus::Initializing,
        ManagerCmd::LeaveRoom => NodeStatus::AwaitingRoom,
    }
}

/// Whether `next` is what follows a command: a swarm in the room that is started, as the peer
/// that the node is, or the announcement that a room is awaited.
pub open spec fn follows(cmd: ManagerCmd, identity: Identity, next: NextRoom) -> bool {
    match cmd {
        ManagerCmd::StartRoom(config) => next matches NextRoom::Spawn { room, identity: own }
            && room == config && own.parts() == identity.parts(),
        ManagerCmd::LeaveRoom => next == NextRoom::AnnounceAwaiting,
    }
}

impl SwarmManager {
    /// A manager that runs no swarm yet.
    pub fn new(identity: Identity) -> (r: Self)
        ensures
            !r.running,
            r.identity == identity,
    {
        SwarmManager { running: false, identity }
    }

    /// Carries a command out. Whatever the command, a swarm that runs is aborted and nothing of
    /// the room it was in is held any longer. The identity stays: a node is the same peer in
    /// every room.
    pub fn handle(&mut self, state: &mut SharedState, cmd: ManagerCmd) -> (r: ManagerStep)
        ensures
            final(self).running == cmd is StartRoom,
            final(self).identity == old(self).identity,
            r.abort == old(self).running,
            app_state::lists_temp_paths(r.remove@, old(state).active_downloads@),
            follows(cmd, old(self).identity, r.next),
            final(state).is_cleared(),
            final(state).node == status_after(cmd),
    {
        let abort = self.running;
        let remove = clear_shared_state(state);
        match cmd {
            ManagerCmd::StartRoom(config) => {
                set_node_status(state, NodeStatus::Initializing);
                self.running = true;
                let identity = self.identity.clone();
                ManagerStep { abort, remove, next: NextRoom::Spawn { room: config, identity } }
            },
            ManagerCmd::LeaveRoom => {
                set_node_status(state, NodeStatus::AwaitingRoom);
                self.running = false;
                ManagerStep { abort, remove, next: NextRoom::AnnounceAwaiting }
            },
        }
    }
}

/// What a node does when it is started: it joins the room that it is configured for, by the
/// command given back; where there is none it awaits one, which is to be announced.
pub fn boot(state: &mut SharedState, config: Option<RoomConfig>) -> (r: Option<ManagerCmd>)
    ensures
        match config {
            Some(c) => r == Some(ManagerCmd::StartRoom(c)) && *final(state) == *old(state),
            None => r is None && *final(state) == (SharedState {
                node: NodeStatus::AwaitingRoom,
                ..*old(state)
            }),
        },
{
    match config {
        Some(c) => Some(ManagerCmd::StartRoom(c)),
        None => {
            set_node_status(state, NodeStatus::AwaitingRoom);
            None
        },
    }
}

fn fail(state: &mut SharedState, message: String) -> (r: String)
    ensures
        r == message,
        *final(state) == (SharedState { node: NodeStatus::Error { message }, ..*old(state) }),
{
    let r = message.clone();
    set_node_status(state, NodeStatus::Error { message });
    r
}

/// The swarm ended with an error. The message given back is to be announced.
pub fn swarm_failed(state: &mut SharedState, error: &str) -> (r: String)
    ensures
        r@ == "Erreur libp2p : "@ + error@,
        *final(state) == (SharedState { node: NodeStatus::Error { message: r }, ..*old(state) }),
{
    fail(state, joined("Erreur libp2p : ", error))
}

/// The identity of the node could not be loaded or made. The message given back is to be
/// announced.
pub fn identity_failed(state: &mut SharedState, error: &str) -> (r: String)
    ensures
        r@ == "Échec du chargement de l'identité : "@ + error@,
        *final(state) == (SharedState { node: NodeStatus::Error { message: r }, ..*old(state) }),
{
    fail(state, joined("Échec du chargement de l'identité : ", error))
}

} // verus!
