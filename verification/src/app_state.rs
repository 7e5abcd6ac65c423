//! The state that the parts of a node share.

use crate::files::{DownloadState, ServedFile};
use crate::history::HistoryStore;
use crate::registry::Registry;
use crate::types::{ChatMessage, FileOffer, NodeStatus, StoredPath};
use std::collections::VecDeque;
use vstd::prelude::*;

verus! {

/// Everything that outlives a single event: the status of the node and what belongs to the
/// room it is in.
pub struct SharedState {
    pub node: NodeStatus,
    pub history: Option<VecDeque<ChatMessage>>,
    pub history_store: Option<HistoryStore>,
    pub served_files: Registry<ServedFile>,
    pub received_offers: Registry<FileOffer>,
    pub active_downloads: Registry<DownloadState>,
}

impl SharedState {
    /// Nothing of any room is held.
    pub open spec fn is_cleared(self) -> bool {
        &&& self.history is None
        &&& self.history_store is None
        &&& self.served_files@ == Map::<Seq<char>, ServedFile>::empty()
        &&& self.received_offers@ == Map::<Seq<char>, FileOffer>::empty()
        &&& self.active_downloads@ == Map::<Seq<char>, DownloadState>::empty()
    }

    /// The state of a node that has just been started.
    pub fn new() -> (r: Self)
        ensures
            r.node == NodeStatus::Initializing,
            r.is_cleared(),
    {
        SharedState {
            node: NodeStatus::Initializing,
            history: None,
            history_store: None,
            served_files: Registry::new(),
            received_offers: Registry::new(),
            active_downloads: Registry::new(),
        }
    }
}

/// The status of the node.
pub fn node_state(state: &SharedState) -> (r: &NodeStatus)
    ensures
        *r == state.node,
{
    &state.node
}

/// A copy of the status of the node.
pub fn get_node_status(state: &SharedState) -> (r: NodeStatus)
    ensures
        r == state.node,
{
    state.node.clone()
}

/// Sets the status of the node and nothing else.
pub fn set_node_status(state: &mut SharedState, status: NodeStatus)
    ensures
        *final(state) == (SharedState { node: status, ..*old(state) }),
{
    state.node = status;
}

/// The messages of the room, oldest first; nothing while no room is joined.
pub fn history_cell(state: &SharedState) -> (r: &Option<VecDeque<ChatMessage>>)
    ensures
        *r == state.history,
{
    &state.history
}

/// Where and under which key the history is kept; nothing while no room is joined.
pub fn history_store_cell(state: &SharedState) -> (r: &Option<HistoryStore>)
    ensures
        *r == state.history_store,
{
    &state.history_store
}

/// The files that this node serves.
pub fn served_files_cell(state: &SharedState) -> (r: &Registry<ServedFile>)
    ensures
        *r == state.served_files,
{
    &state.served_files
}

/// The offers that were received.
pub fn received_offers_cell(state: &SharedState) -> (r: &Registry<FileOffer>)
    ensures
        *r == state.received_offers,
{
    &state.received_offers
}

/// The downloads under way.
pub fn active_downloads_cell(state: &SharedState) -> (r: &Registry<DownloadState>)
    ensures
        *r == state.active_downloads,
{
    &state.active_downloads
}

/// Whether `paths` lists the temporary file of each download once, in some order.
pub open spec fn lists_temp_paths(
    paths: Seq<StoredPath>,
    downloads: Map<Seq<char>, DownloadState>,
) -> bool {
    exists|ids: Seq<Seq<char>>| #[trigger]
        ids.no_duplicates() && ids.len() == paths.len() && (forall|id: Seq<char>| #[trigger]
            ids.contains(id) <==> downloads.contains_key(id)) && forall|i: int|
            0 <= i < paths.len() ==> #[trigger] paths[i] == downloads[ids[i]].temp_path
}

/// Drops everything that belongs to a room, before a room is joined and after one is left. The
/// status stays. Gives back the temporary files of the downloads that were under way, which
/// are to be removed.
pub fn clear_shared_state(state: &mut SharedState) -> (r: Vec<StoredPath>)
    ensures
        final(state).is_cleared(),
        final(state).node == old(state).node,
        lists_temp_paths(r@, old(state).active_downloads@),
{
    let mut paths: Vec<StoredPath> = Vec::new();
    let n: usize = state.active_downloads.len();
    let ghost ids = state.active_downloads.keys();
    let mut i: usize = 0;
    while i < n
        invariant
            i <= n,
            n == ids.len(),
            ids == state.active_downloads.keys(),
            *state == *old(state),
            paths@.len() == i,
            forall|j: int|
                0 <= j < i ==> #[trigger] paths@[j]
                    == state.active_downloads@[ids[j]].temp_path,
        decreases n - i,
    {
        paths.push(state.active_downloads.value_at(i).temp_path.clone());
        i = i + 1;
    }
    assert(ids.no_duplicates());
    state.history = None;
    state.history_store = None;
    state.served_files.clear();
    state.received_offers.clear();
    state.active_downloads.clear();
    paths
}

} // verus!
