//! The sync client's side of the protocol: its configuration and the pure
//! decision of what to do with each message the server sends.  The
//! transport loop performs the chosen action and feeds the next message
//! back in.

use vstd::prelude::*;
use crate::protocol::WebSocketMessage;
use crate::text::str_eq;

verus! {

/// A connected sync client: where it talks to, who it is, and where it
/// keeps fonts locally.
pub struct WebSocketClient {
    pub server_url: String,
    pub client_id: String,
    pub local_font_dirs: Vec<String>,
    pub download_dir: String,
}

/// What the client's transport loop must do after one server message.
pub enum ClientAction {
    /// Fetch the named font, verify it against the hash, then install it.
    DownloadAndInstall { filename: String, sha256: String },
    /// Remove the local copy of the named font, if it matches what was
    /// downloaded earlier.
    RemoveLocal { filename: String },
    /// Answer the server's heartbeat probe.
    ReplyHeartbeat,
    /// Run a full initial synchronization.
    StartInitialSync,
    Ignore,
}

impl WebSocketClient {
    pub fn new(
        server_url: String,
        client_id: String,
        local_font_dirs: Vec<String>,
        download_dir: String,
    ) -> (r: WebSocketClient)
        ensures
            r.server_url@ == server_url@,
            r.client_id@ == client_id@,
            r.local_font_dirs@ == local_font_dirs@,
            r.download_dir@ == download_dir@,
    {
        WebSocketClient { server_url, client_id, local_font_dirs, download_dir }
    }

    /// Decides the action for one server message: a font notice is fetched
    /// and installed, a removal notice removes the local copy, a heartbeat
    /// is answered, and a successful sync completion addressed to this
    /// client starts the initial synchronization.  Anything else is
    /// ignored.
    pub fn handle_server_message(&self, msg: &WebSocketMessage) -> (a: ClientAction)
        ensures
            match msg {
                WebSocketMessage::FontAdded { filename, sha256, .. } => {
                    a matches ClientAction::DownloadAndInstall { filename: f, sha256: h } && f@
                        == filename@ && h@ == sha256@
                },
                WebSocketMessage::FontModified { filename, sha256, .. } => {
                    a matches ClientAction::DownloadAndInstall { filename: f, sha256: h } && f@
                        == filename@ && h@ == sha256@
                },
                WebSocketMessage::FontRemoved { filename } => {
                    a matches ClientAction::RemoveLocal { filename: f } && f@ == filename@
                },
                WebSocketMessage::Heartbeat => a matches ClientAction::ReplyHeartbeat,
                WebSocketMessage::SyncComplete { client_id, success, .. } => {
                    if client_id@ == self.client_id@ && *success {
                        a matches ClientAction::StartInitialSync
                    } else {
                        a matches ClientAction::Ignore
                    }
                },
                _ => a matches ClientAction::Ignore,
            },
    {
        match msg {
            WebSocketMessage::FontAdded { filename, sha256, size: _ } => {
                ClientAction::DownloadAndInstall {
                    filename: filename.clone(),
                    sha256: sha256.clone(),
                }
            },
            WebSocketMessage::FontModified { filename, sha256, size: _ } => {
                ClientAction::DownloadAndInstall {
                    filename: filename.clone(),
                    sha256: sha256.clone(),
                }
            },
            WebSocketMessage::FontRemoved { filename } => {
                ClientAction::RemoveLocal { filename: filename.clone() }
            },
            WebSocketMessage::Heartbeat => ClientAction::ReplyHeartbeat,
            WebSocketMessage::SyncComplete { client_id, success, message: _ } => {
                if str_eq(client_id.as_str(), self.client_id.as_str()) && *success {
                    ClientAction::StartInitialSync
                } else {
                    ClientAction::Ignore
                }
            },
            _ => ClientAction::Ignore,
        }
    }
}

/// The WebSocket scheme a client uses to reach a server URL: `http`
/// becomes `ws`, `https` becomes `wss`, the WebSocket schemes stay, and
/// anything else is unsupported.
pub fn ws_scheme_for(scheme: &str) -> (r: Option<&'static str>)
    ensures
        match r {
            Some(s) => {
                &&& (scheme@ == "http"@ || scheme@ == "ws"@) ==> s@ == "ws"@
                &&& (scheme@ == "https"@ || scheme@ == "wss"@) ==> s@ == "wss"@
            },
            None => scheme@ != "http"@ && scheme@ != "https"@ && scheme@ != "ws"@ && scheme@
                != "wss"@,
        },
        r is Some <==> (scheme@ == "http"@ || scheme@ == "https"@ || scheme@ == "ws"@ || scheme@
            == "wss"@),
{
    broadcast use vstd::string::group_string_axioms;

    proof {
        reveal_strlit("http");
        reveal_strlit("https");
        reveal_strlit("ws");
        reveal_strlit("wss");
        assert("http"@.len() == 4);
        assert("https"@.len() == 5);
        assert("ws"@.len() == 2);
        assert("wss"@.len() == 3);
    }
    if str_eq(scheme, "http") || str_eq(scheme, "ws") {
        Some("ws")
    } else if str_eq(scheme, "https") || str_eq(scheme, "wss") {
        Some("wss")
    } else {
        None
    }
}

} // verus!
