//! The messages, statuses and commands that the parts of a node exchange.

use vstd::prelude::*;

verus! {

/// Tag that begins every topic, and keeps versions of the network apart.
pub const APP_TAG: &'static str = "lan-chat-v1";

/// A message in a room. `id` tells messages apart; `timestamp` is in milliseconds.
#[derive(Debug, PartialEq, Eq)]
pub struct ChatMessage {
    pub id: String,
    pub sender_name: String,
    pub sender_id: String,
    pub content: String,
    pub timestamp: u64,
}

/// The announcement of a file that its sender serves on demand. `hash` is the SHA-256 digest of
/// its content, in hexadecimal.
#[derive(Debug, PartialEq, Eq)]
pub struct FileOffer {
    pub id: String,
    pub sender_name: String,
    pub sender_id: String,
    pub timestamp: u64,
    pub filename: String,
    pub size: u64,
    pub mime: String,
    pub hash: String,
}

/// Everything that is published in a room.
#[derive(Debug, PartialEq, Eq)]
pub enum WireMessage {
    Chat(ChatMessage),
    FileOffer(FileOffer),
}

/// A sealed message: `n` is the nonce of twelve bytes and `c` the ciphertext with its tag, both
/// in Base64. Nothing goes over the network in the clear.
#[derive(Debug, PartialEq, Eq)]
pub struct EncryptedEnvelope {
    pub n: String,
    pub c: String,
}

/// How far the node is.
#[derive(Debug, PartialEq, Eq)]
pub enum NodeStatus {
    Initializing,
    AwaitingRoom,
    Ready { peer_id: String, room_name: String },
    Error { message: String },
}

/// The room that the node is configured for.
#[derive(Debug, PartialEq, Eq)]
pub struct RoomConfig {
    pub version: u32,
    pub code: String,
}

/// Answer to the question whether a room is configured.
#[derive(Debug, PartialEq, Eq)]
pub struct RoomStatusResp {
    pub configured: bool,
    pub room_name: Option<String>,
}

/// What is announced when the node has joined its room.
#[derive(Debug, PartialEq, Eq)]
pub struct NodeReadyPayload {
    pub peer_id: String,
    pub room_name: String,
}

/// Commands that drive the life of the swarm: a room can be changed without a restart.
#[derive(Debug, PartialEq, Eq)]
pub enum ManagerCmd {
    StartRoom(RoomConfig),
    LeaveRoom,
}

/// A file in the application's data directory: the name of a folder in it, and the name of the
/// file in that folder.
#[derive(Debug, PartialEq, Eq)]
pub struct StoredPath {
    pub folder: String,
    pub name: String,
}

impl Clone for ChatMessage {
    fn clone(&self) -> (r: Self)
        ensures
            r == *self,
    {
        ChatMessage {
            id: self.id.clone(),
            sender_name: self.sender_name.clone(),
            sender_id: self.sender_id.clone(),
            content: self.content.clone(),
            timestamp: self.timestamp,
        }
    }
}

impl Clone for FileOffer {
    fn clone(&self) -> (r: Self)
        ensures
            r == *self,
    {
        FileOffer {
            id: self.id.clone(),
            sender_name: self.sender_name.clone(),
            sender_id: self.sender_id.clone(),
            timestamp: self.timestamp,
            filename: self.filename.clone(),
            size: self.size,
            mime: self.mime.clone(),
            hash: self.hash.clone(),
        }
    }
}

impl Clone for WireMessage {
    fn clone(&self) -> (r: Self)
        ensures
            r == *self,
    {
        match self {
            WireMessage::Chat(m) => WireMessage::Chat(m.clone()),
            WireMessage::FileOffer(o) => WireMessage::FileOffer(o.clone()),
        }
    }
}

impl Clone for EncryptedEnvelope {
    fn clone(&self) -> (r: Self)
        ensures
            r == *self,
    {
        EncryptedEnvelope { n: self.n.clone(), c: self.c.clone() }
    }
}

impl Clone for NodeStatus {
    fn clone(&self) -> (r: Self)
        ensures
            r == *self,
    {
        match self {
            NodeStatus::Initializing => NodeStatus::Initializing,
            NodeStatus::AwaitingRoom => NodeStatus::AwaitingRoom,
            NodeStatus::Ready { peer_id, room_name } => NodeStatus::Ready {
                peer_id: peer_id.clone(),
                room_name: room_name.clone(),
            },
            NodeStatus::Error { message } => NodeStatus::Error { message: message.clone() },
        }
    }
}

impl Clone for RoomConfig {
    fn clone(&self) -> (r: Self)
        ensures
            r == *self,
    {
        RoomConfig { version: self.version, code: self.code.clone() }
    }
}

impl Clone for NodeReadyPayload {
    fn clone(&self) -> (r: Self)
        ensures
            r == *self,
    {
        NodeReadyPayload { peer_id: self.peer_id.clone(), room_name: self.room_name.clone() }
    }
}

impl Clone for StoredPath {
    fn clone(&self) -> (r: Self)
        ensures
            r == *self,
    {
        StoredPath { folder: self.folder.clone(), name: self.name.clone() }
    }
}

} // verus!
