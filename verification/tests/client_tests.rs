use fontsync::client::{ws_scheme_for, ClientAction, WebSocketClient};
use fontsync::listing::{font_entry, FontList};
use fontsync::protocol::{
    create_font_added_event, create_font_modified_event, create_font_removed_event,
    WebSocketMessage,
};

const H: &str = "cccccccccccccccccccccccccccccccccccccccccccccccccccccccccccccccc";

fn client() -> WebSocketClient {
    WebSocketClient::new(
        "http://localhost:8080".to_string(),
        "client_1".to_string(),
        vec!["/tmp/fonts".to_string()],
        "/tmp/downloads".to_string(),
    )
}

#[test]
fn font_added_notice_triggers_download_and_install() {
    let c = client();
    let msg = create_font_added_event("new.ttf".to_string(), H.to_string(), 7);
    let a = c.handle_server_message(&msg);
    assert!(matches!(
        a,
        ClientAction::DownloadAndInstall { filename, sha256 }
            if filename == "new.ttf" && sha256 == H
    ));
}

#[test]
fn font_modified_notice_triggers_download_and_install() {
    let c = client();
    let msg = create_font_modified_event("mod.ttf".to_string(), H.to_string(), 7);
    let a = c.handle_server_message(&msg);
    assert!(matches!(
        a,
        ClientAction::DownloadAndInstall { filename, sha256 }
            if filename == "mod.ttf" && sha256 == H
    ));
}

#[test]
fn font_removed_notice_triggers_local_removal() {
    let c = client();
    let msg = create_font_removed_event("old.ttf".to_string());
    let a = c.handle_server_message(&msg);
    assert!(matches!(a, ClientAction::RemoveLocal { filename } if filename == "old.ttf"));
}

#[test]
fn heartbeat_is_answered() {
    let c = client();
    let a = c.handle_server_message(&WebSocketMessage::Heartbeat);
    assert!(matches!(a, ClientAction::ReplyHeartbeat));
}

#[test]
fn own_successful_sync_completion_starts_initial_sync() {
    let c = client();
    let own = WebSocketMessage::SyncComplete {
        client_id: "client_1".to_string(),
        success: true,
        message: "Connected to font sync server".to_string(),
    };
    assert!(matches!(c.handle_server_message(&own), ClientAction::StartInitialSync));
    let foreign = WebSocketMessage::SyncComplete {
        client_id: "client_2".to_string(),
        success: true,
        message: String::new(),
    };
    assert!(matches!(c.handle_server_message(&foreign), ClientAction::Ignore));
    let failed = WebSocketMessage::SyncComplete {
        client_id: "client_1".to_string(),
        success: false,
        message: String::new(),
    };
    assert!(matches!(c.handle_server_message(&failed), ClientAction::Ignore));
}

#[test]
fn unknown_traffic_is_ignored() {
    let c = client();
    let a = c.handle_server_message(&WebSocketMessage::Ack { message_id: "m1".to_string() });
    assert!(matches!(a, ClientAction::Ignore));
}

#[test]
fn websocket_scheme_mapping() {
    assert_eq!(ws_scheme_for("http"), Some("ws"));
    assert_eq!(ws_scheme_for("https"), Some("wss"));
    assert_eq!(ws_scheme_for("ws"), Some("ws"));
    assert_eq!(ws_scheme_for("wss"), Some("wss"));
    assert_eq!(ws_scheme_for("ftp"), None);
}

#[test]
fn listing_entry_derives_mime_type() {
    let e = font_entry("a.woff2".to_string(), 9, H.to_string());
    assert_eq!(e.name, "a.woff2");
    assert_eq!(e.size, 9);
    assert_eq!(e.mime_type, "font/woff2");
    assert_eq!(e.sha256, H);
}

#[test]
fn listing_reduces_to_inventory() {
    let mut list = FontList::new();
    list.push(font_entry("a.ttf".to_string(), 1, H.to_string()));
    list.push(font_entry("b.ttf".to_string(), 2, H.to_string()));
    let inv = list.to_inventory();
    assert_eq!(inv.len(), 2);
    assert_eq!(inv.get("a.ttf").map(|h| h.as_str()), Some(H));
    assert!(inv.get("missing.ttf").is_none());
}

#[test]
fn message_duplicate_preserves_fields() {
    let m = create_font_added_event("d.ttf".to_string(), H.to_string(), 3);
    let d = m.duplicate();
    assert!(matches!(
        d,
        WebSocketMessage::FontAdded { filename, sha256, size }
            if filename == "d.ttf" && sha256 == H && size == 3
    ));
}
