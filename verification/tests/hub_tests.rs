use fontsync::hub::{
    BroadcastHub, SessionDirective, SessionEvent, HEARTBEAT_TIMEOUT_SECS, REAPER_TIMEOUT_SECS,
};
use fontsync::protocol::{create_font_added_event, WebSocketMessage};

const H: &str = "aaaaaaaaaaaaaaaaaaaaaaaaaaaaaaaaaaaaaaaaaaaaaaaaaaaaaaaaaaaaaaaa";

#[test]
fn publish_reaches_every_live_session() {
    let mut hub = BroadcastHub::new(16);
    let a = hub.connect(0);
    let b = hub.connect(0);
    assert_eq!(hub.get_connected_clients(), 2);
    hub.publish(&create_font_added_event("f.ttf".to_string(), H.to_string(), 10));
    for id in [a, b] {
        let q = hub.drain_queue(id).expect("connected session has a queue");
        assert_eq!(q.len(), 1);
        assert!(matches!(
            &q[0],
            WebSocketMessage::FontAdded { filename, sha256, size }
                if filename == "f.ttf" && sha256 == H && *size == 10
        ));
    }
    // Draining leaves the queue empty.
    assert_eq!(hub.drain_queue(a).unwrap().len(), 0);
}

#[test]
fn heartbeat_eviction_removes_silent_session_only() {
    // One session stays silent past the reaper timeout, the other sends a
    // liveness signal: the sweep removes exactly the silent one, and a
    // later publish reaches only the survivor.
    let mut hub = BroadcastHub::new(16);
    let silent = hub.connect(0);
    let lively = hub.connect(0);
    hub.record_heartbeat(lively, 100);
    let removed = hub.evict_expired(200, REAPER_TIMEOUT_SECS);
    assert_eq!(removed, vec![silent]);
    assert_eq!(hub.get_connected_clients(), 1);
    assert!(hub.lookup_session(silent).is_none());
    hub.publish(&WebSocketMessage::Heartbeat);
    assert!(hub.drain_queue(silent).is_none());
    assert_eq!(hub.drain_queue(lively).unwrap().len(), 1);
}

#[test]
fn responsive_session_is_never_evicted() {
    let mut hub = BroadcastHub::new(16);
    let id = hub.connect(0);
    let mut now = 0u64;
    for _ in 0..20 {
        now += 30;
        hub.record_heartbeat(id, now);
        let removed = hub.evict_expired(now, REAPER_TIMEOUT_SECS);
        assert!(removed.is_empty());
        assert!(hub.lookup_session(id).is_some());
    }
}

#[test]
fn slow_consumer_drops_oldest_and_counts_lag() {
    // Capacity two: the third publish drops the oldest undelivered event
    // and bumps the lag counter; nothing blocks, memory stays bounded.
    let mut hub = BroadcastHub::new(2);
    let id = hub.connect(0);
    hub.publish(&create_font_added_event("one.ttf".to_string(), H.to_string(), 1));
    hub.publish(&create_font_added_event("two.ttf".to_string(), H.to_string(), 2));
    hub.publish(&create_font_added_event("three.ttf".to_string(), H.to_string(), 3));
    assert_eq!(hub.lookup_session(id).unwrap().lagged, 1);
    let q = hub.drain_queue(id).unwrap();
    assert_eq!(q.len(), 2);
    assert!(matches!(&q[0], WebSocketMessage::FontAdded { filename, .. } if filename == "two.ttf"));
    assert!(
        matches!(&q[1], WebSocketMessage::FontAdded { filename, .. } if filename == "three.ttf")
    );
}

#[test]
fn queue_keeps_publish_order() {
    let mut hub = BroadcastHub::new(8);
    let id = hub.connect(0);
    for name in ["a.ttf", "b.ttf", "c.ttf"] {
        hub.publish(&create_font_added_event(name.to_string(), H.to_string(), 0));
    }
    let q = hub.drain_queue(id).unwrap();
    let names: Vec<&str> = q
        .iter()
        .map(|m| match m {
            WebSocketMessage::FontAdded { filename, .. } => filename.as_str(),
            _ => "",
        })
        .collect();
    assert_eq!(names, vec!["a.ttf", "b.ttf", "c.ttf"]);
}

#[test]
fn session_step_pong_refreshes_liveness() {
    let mut hub = BroadcastHub::new(8);
    let id = hub.connect(0);
    let d = hub.session_event(id, SessionEvent::PongFrame, 50, Vec::new());
    assert!(matches!(d, SessionDirective::Nothing));
    assert_eq!(hub.lookup_session(id).unwrap().last_seen, 50);
}

#[test]
fn any_received_message_refreshes_liveness() {
    // An explicit heartbeat reply, or any other received message, counts
    // as a liveness signal.
    let mut hub = BroadcastHub::new(8);
    let id = hub.connect(0);
    hub.session_event(
        id,
        SessionEvent::TextMessage(WebSocketMessage::Heartbeat),
        40,
        Vec::new(),
    );
    assert_eq!(hub.lookup_session(id).unwrap().last_seen, 40);
    hub.session_event(
        id,
        SessionEvent::TextMessage(WebSocketMessage::SyncRequest {
            client_id: "client_9".to_string(),
        }),
        55,
        Vec::new(),
    );
    assert_eq!(hub.lookup_session(id).unwrap().last_seen, 55);
    hub.session_event(id, SessionEvent::InvalidText, 70, Vec::new());
    assert_eq!(hub.lookup_session(id).unwrap().last_seen, 70);
    hub.session_event(id, SessionEvent::BinaryFrame, 85, Vec::new());
    assert_eq!(hub.lookup_session(id).unwrap().last_seen, 85);
    hub.session_event(
        id,
        SessionEvent::TextMessage(create_font_added_event("f.ttf".to_string(), H.to_string(), 1)),
        99,
        Vec::new(),
    );
    assert_eq!(hub.lookup_session(id).unwrap().last_seen, 99);
}

#[test]
fn text_heartbeat_replies_keep_session_alive_forever() {
    // A session that answers every probe with a protocol-level Heartbeat
    // text message is never evicted, by the per-connection timeout or the
    // reaper, no matter how long it stays connected.
    let mut hub = BroadcastHub::new(8);
    let id = hub.connect(0);
    let mut now = 0u64;
    for _ in 0..10 {
        now += 100;
        let d = hub.session_event(
            id,
            SessionEvent::TextMessage(WebSocketMessage::Heartbeat),
            now,
            Vec::new(),
        );
        assert!(matches!(d, SessionDirective::Nothing));
        let d = hub.session_event(id, SessionEvent::HeartbeatTick, now + 30, Vec::new());
        assert!(matches!(d, SessionDirective::Reply(WebSocketMessage::Heartbeat)));
        assert!(hub.evict_expired(now + 30, REAPER_TIMEOUT_SECS).is_empty());
        assert!(hub.lookup_session(id).is_some());
    }
}

#[test]
fn session_step_heartbeat_tick_probes_or_gives_up() {
    let mut hub = BroadcastHub::new(8);
    let id = hub.connect(0);
    // Within the timeout: the probe is sent and the session stays.
    let d = hub.session_event(id, SessionEvent::HeartbeatTick, HEARTBEAT_TIMEOUT_SECS, Vec::new());
    assert!(matches!(d, SessionDirective::Reply(WebSocketMessage::Heartbeat)));
    assert!(hub.lookup_session(id).is_some());
    // Past the timeout: the probe is sent, then the connection is closed.
    let d = hub.session_event(
        id,
        SessionEvent::HeartbeatTick,
        HEARTBEAT_TIMEOUT_SECS + 1,
        Vec::new(),
    );
    assert!(matches!(d, SessionDirective::ReplyAndDisconnect(WebSocketMessage::Heartbeat)));
    assert!(hub.lookup_session(id).is_none());
}

#[test]
fn session_step_close_removes_session() {
    let mut hub = BroadcastHub::new(8);
    let id = hub.connect(0);
    let d = hub.session_event(id, SessionEvent::Closed, 1, Vec::new());
    assert!(matches!(d, SessionDirective::Disconnect));
    assert_eq!(hub.get_connected_clients(), 0);
}

#[test]
fn session_step_sync_request_gets_sync_started_reply() {
    let mut hub = BroadcastHub::new(8);
    let id = hub.connect(0);
    let msg = WebSocketMessage::SyncRequest { client_id: "client_7".to_string() };
    let d = hub.session_event(id, SessionEvent::TextMessage(msg), 1, Vec::new());
    assert!(matches!(
        d,
        SessionDirective::Reply(WebSocketMessage::SyncComplete { client_id, success, message })
            if client_id == "client_7" && success && message == "Sync started"
    ));
}

#[test]
fn session_step_font_notice_is_fanned_out() {
    let mut hub = BroadcastHub::new(8);
    let a = hub.connect(0);
    let b = hub.connect(0);
    let msg = create_font_added_event("n.ttf".to_string(), H.to_string(), 4);
    let d = hub.session_event(a, SessionEvent::TextMessage(msg), 1, Vec::new());
    assert!(matches!(d, SessionDirective::Nothing));
    assert_eq!(hub.drain_queue(a).unwrap().len(), 1);
    assert_eq!(hub.drain_queue(b).unwrap().len(), 1);
}

#[test]
fn session_step_lagged_keeps_session() {
    let mut hub = BroadcastHub::new(8);
    let id = hub.connect(0);
    let d = hub.session_event(id, SessionEvent::BroadcastLagged(5), 1, Vec::new());
    assert!(matches!(d, SessionDirective::Nothing));
    assert!(hub.lookup_session(id).is_some());
}

#[test]
fn session_step_list_request_serves_font_list() {
    let mut hub = BroadcastHub::new(8);
    let id = hub.connect(0);
    let d = hub.session_event(
        id,
        SessionEvent::TextMessage(WebSocketMessage::FontListRequest),
        1,
        Vec::new(),
    );
    assert!(matches!(
        d,
        SessionDirective::Reply(WebSocketMessage::FontListResponse { fonts }) if fonts.is_empty()
    ));
}
