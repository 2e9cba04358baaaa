//! The notification wire messages exchanged between the hub and its
//! sessions: a tagged union of font change notices, list and sync requests,
//! and heartbeats.  Consumers match it exhaustively; a frame whose tag is
//! unknown never reaches this type — the transport layer drops it, which
//! keeps the protocol forward compatible.

use vstd::prelude::*;

verus! {

/// One font as a peer advertises it.
pub struct FontInfo {
    pub filename: String,
    pub sha256: String,
    pub size: u64,
    pub timestamp: u64,
}

impl View for FontInfo {
    type V = (Seq<char>, Seq<char>, u64, u64);

    open spec fn view(&self) -> (Seq<char>, Seq<char>, u64, u64) {
        (self.filename@, self.sha256@, self.size, self.timestamp)
    }
}

impl FontInfo {
    /// A field-for-field copy.
    pub fn duplicate(&self) -> (r: FontInfo)
        ensures
            r@ == self@,
    {
        FontInfo {
            filename: self.filename.clone(),
            sha256: self.sha256.clone(),
            size: self.size,
            timestamp: self.timestamp,
        }
    }
}

/// A message of the notification protocol.
pub enum WebSocketMessage {
    FontAdded { filename: String, sha256: String, size: u64 },
    FontModified { filename: String, sha256: String, size: u64 },
    FontRemoved { filename: String },
    FontListRequest,
    FontListResponse { fonts: Vec<FontInfo> },
    SyncRequest { client_id: String },
    SyncComplete { client_id: String, success: bool, message: String },
    Heartbeat,
    Ack { message_id: String },
}

/// The spec-level value of a message.
pub enum MessageV {
    FontAdded { filename: Seq<char>, sha256: Seq<char>, size: u64 },
    FontModified { filename: Seq<char>, sha256: Seq<char>, size: u64 },
    FontRemoved { filename: Seq<char> },
    FontListRequest,
    FontListResponse { fonts: Seq<(Seq<char>, Seq<char>, u64, u64)> },
    SyncRequest { client_id: Seq<char> },
    SyncComplete { client_id: Seq<char>, success: bool, message: Seq<char> },
    Heartbeat,
    Ack { message_id: Seq<char> },
}

impl View for WebSocketMessage {
    type V = MessageV;

    open spec fn view(&self) -> MessageV {
        match self {
            WebSocketMessage::FontAdded { filename, sha256, size } => (MessageV::FontAdded {
                filename: filename@,
                sha256: sha256@,
                size: *size,
            }),
            WebSocketMessage::FontModified { filename, sha256, size } => (MessageV::FontModified {
                filename: filename@,
                sha256: sha256@,
                size: *size,
            }),
            WebSocketMessage::FontRemoved { filename } => (MessageV::FontRemoved {
                filename: filename@,
            }),
            WebSocketMessage::FontListRequest => MessageV::FontListRequest,
            WebSocketMessage::FontListResponse { fonts } => (MessageV::FontListResponse {
                fonts: fonts@.map_values(|f: FontInfo| f@),
            }),
            WebSocketMessage::SyncRequest { client_id } => (MessageV::SyncRequest {
                client_id: client_id@,
            }),
            WebSocketMessage::SyncComplete { client_id, success, message } => (
            MessageV::SyncComplete {
                client_id: client_id@,
                success: *success,
                message: message@,
            }),
            WebSocketMessage::Heartbeat => MessageV::Heartbeat,
            WebSocketMessage::Ack { message_id } => (MessageV::Ack { message_id: message_id@ }),
        }
    }
}

impl WebSocketMessage {
    /// A field-for-field copy, used when one message is fanned out to many
    /// session queues.
    pub fn duplicate(&self) -> (r: WebSocketMessage)
        ensures
            r@ == self@,
    {
        match self {
            WebSocketMessage::FontAdded { filename, sha256, size } => WebSocketMessage::FontAdded {
                filename: filename.clone(),
                sha256: sha256.clone(),
                size: *size,
            },
            WebSocketMessage::FontModified {
                filename,
                sha256,
                size,
            } => WebSocketMessage::FontModified {
                filename: filename.clone(),
                sha256: sha256.clone(),
                size: *size,
            },
            WebSocketMessage::FontRemoved { filename } => WebSocketMessage::FontRemoved {
                filename: filename.clone(),
            },
            WebSocketMessage::FontListRequest => WebSocketMessage::FontListRequest,
            WebSocketMessage::FontListResponse { fonts } => {
                let n = fonts.len();
                let mut out: Vec<FontInfo> = Vec::new();
                let mut i: usize = 0;
                while i < n
                    invariant
                        i <= n,
                        n == fonts@.len(),
                        out@.len() == i,
                        forall|k: int| 0 <= k < i ==> (#[trigger] out@[k])@ == fonts@[k]@,
                    decreases n - i,
                {
                    out.push(fonts[i].duplicate());
                    i = i + 1;
                }
                let r = WebSocketMessage::FontListResponse { fonts: out };
                proof {
                    assert(out@.map_values(|f: FontInfo| f@) =~= fonts@.map_values(
                        |f: FontInfo| f@,
                    ));
                }
                r
            },
            WebSocketMessage::SyncRequest { client_id } => WebSocketMessage::SyncRequest {
                client_id: client_id.clone(),
            },
            WebSocketMessage::SyncComplete {
                client_id,
                success,
                message,
            } => WebSocketMessage::SyncComplete {
                client_id: client_id.clone(),
                success: *success,
                message: message.clone(),
            },
            WebSocketMessage::Heartbeat => WebSocketMessage::Heartbeat,
            WebSocketMessage::Ack { message_id } => WebSocketMessage::Ack {
                message_id: message_id.clone(),
            },
        }
    }
}

/// The notice broadcast when a font appears.
pub fn create_font_added_event(filename: String, sha256: String, size: u64) -> (r:
    WebSocketMessage)
    ensures
        r@ == (MessageV::FontAdded { filename: filename@, sha256: sha256@, size }),
{
    WebSocketMessage::FontAdded { filename, sha256, size }
}

/// The notice broadcast when a font's content changes.
pub fn create_font_modified_event(filename: String, sha256: String, size: u64) -> (r:
    WebSocketMessage)
    ensures
        r@ == (MessageV::FontModified { filename: filename@, sha256: sha256@, size }),
{
    WebSocketMessage::FontModified { filename, sha256, size }
}

/// The notice broadcast when a font disappears.
pub fn create_font_removed_event(filename: String) -> (r: WebSocketMessage)
    ensures
        r@ == (MessageV::FontRemoved { filename: filename@ }),
{
    WebSocketMessage::FontRemoved { filename }
}

} // verus!
