use console_bridge::batch::Outgoing;
use console_bridge::bridge::NO_REPLY;
use console_bridge::server::Server;
use console_bridge::supervisor::{Action, Happening};

#[test]
fn server_routes_replies_and_relays_chat() {
    let mut s = Server::new(8, 15, 1500, 1000, 60000, 30000);
    let viewer = s.bridge.subscribe();
    assert!(s.on_output(b"\x1b[1ma: hi\x1b[0m\n", 0).is_empty());
    let ticket = s.bridge.begin_request(5000);
    assert!(s.on_output(b"57 TPS / 274 MB / 7 PLAYERS\n", 10).is_empty());
    assert_eq!(s.bridge.take_reply(ticket), Some("57 TPS / 274 MB / 7 PLAYERS\n".to_string()));
    assert!(s.tick(100).is_empty());
    assert_eq!(
        s.tick(1600),
        vec![Outgoing { speaker: Some("a".into()), content: "hi".into() }]
    );
    assert_eq!(s.bridge.recv(viewer), Some("a: hi\n".to_string()));
    assert_eq!(s.bridge.recv(viewer), None);
}

#[test]
fn server_epoch_end_releases_waiters_and_backs_off() {
    let mut s = Server::new(8, 15, 1500, 1000, 60000, 30000);
    assert_eq!(s.on_connection(Happening::Started), Action::Connect);
    assert_eq!(s.on_connection(Happening::Connected), Action::Serve);
    let ticket = s.bridge.begin_request(u64::MAX);
    assert_eq!(s.on_connection(Happening::Waited), Action::Stay);
    assert_eq!(s.bridge.take_reply(ticket), None);
    assert_eq!(
        s.on_connection(Happening::EpochEnded { ran_for: 5 }),
        Action::Wait { millis: 1000 }
    );
    assert_eq!(s.bridge.take_reply(ticket), Some(NO_REPLY.to_string()));
    assert_eq!(s.on_connection(Happening::Waited), Action::Connect);
    assert_eq!(s.on_connection(Happening::ConnectFailed), Action::Wait { millis: 2000 });
}

#[test]
fn server_tick_expires_overdue_requests() {
    let mut s = Server::new(8, 15, 1500, 1000, 60000, 30000);
    let ticket = s.bridge.begin_request(200);
    assert!(s.tick(199).is_empty());
    assert_eq!(s.bridge.take_reply(ticket), None);
    assert!(s.tick(200).is_empty());
    assert_eq!(s.bridge.take_reply(ticket), Some(NO_REPLY.to_string()));
}
