use pombo_correio::models::{FileMeta, Offer};
use pombo_correio::server::{file_saved, not_found, receive_offer, report_offer_status, transfer_not_accepted};
use pombo_correio::settings::{DeviceSet, Settings};
use pombo_correio::state::{choose_address, Address, Inner, OfferStatus};
use pombo_correio::storage::PathStyle;

fn settings() -> Settings {
    Settings {
        device_id: "me".into(),
        device_name: "My laptop".into(),
        inbox: "/tmp/inbox".into(),
        trusted_devices: DeviceSet::new(),
        auto_open_links: false,
    }
}

fn offer(id: &str, sender: &str, files: &[&str]) -> Offer {
    Offer {
        id: id.into(),
        sender_id: sender.into(),
        sender_name: format!("{sender} phone"),
        files: files
            .iter()
            .map(|n| FileMeta { name: n.to_string(), size: 10 })
            .collect(),
        text: None,
    }
}

fn body(r: &pombo_correio::server::Reply) -> String {
    String::from_utf8(r.body.clone()).unwrap()
}

#[test]
fn unknown_sender_must_be_approved() {
    let mut inner = Inner::new(settings(), "/tmp/s.json".into());
    assert_eq!(inner.register_offer(offer("o1", "phone", &["a.jpg"])), OfferStatus::Pending);
    assert_eq!(inner.offer_status("o1"), OfferStatus::Pending);
    assert_eq!(inner.file_target("o1", "0", PathStyle::Unix, |_| false), None);
    assert_eq!(inner.snapshot().incoming.len(), 1);
}

#[test]
fn trusted_sender_is_remembered() {
    let mut inner = Inner::new(settings(), "/tmp/s.json".into());
    inner.register_offer(offer("o1", "phone", &["a.jpg"]));
    assert_eq!(inner.answer_offer("o1", true, true), Ok(true));
    assert!(inner.settings.trusted_devices.contains("phone"));
    assert_eq!(inner.offer_status("o1"), OfferStatus::Accepted);
    assert_eq!(inner.register_offer(offer("o2", "phone", &["b.jpg"])), OfferStatus::Accepted);
    assert_eq!(inner.offer_status("o2"), OfferStatus::Accepted);
    assert_eq!(
        inner.file_target("o2", "0", PathStyle::Unix, |_| false).as_deref(),
        Some("/tmp/inbox/b.jpg")
    );
    assert!(inner.snapshot().incoming.is_empty());
}

#[test]
fn accept_without_trust_asks_again_next_time() {
    let mut inner = Inner::new(settings(), "/tmp/s.json".into());
    inner.register_offer(offer("o1", "phone", &["a.jpg"]));
    assert_eq!(inner.answer_offer("o1", true, false), Ok(false));
    assert_eq!(inner.file_target("o1", "0", PathStyle::Unix, |_| false).as_deref(), Some("/tmp/inbox/a.jpg"));
    assert_eq!(inner.register_offer(offer("o2", "phone", &[])), OfferStatus::Pending);
}

#[test]
fn declined_offer_is_reported_and_refused() {
    let mut inner = Inner::new(settings(), "/tmp/s.json".into());
    inner.register_offer(offer("o1", "phone", &["a.jpg"]));
    assert_eq!(inner.answer_offer("o1", false, true), Ok(false));
    assert!(!inner.settings.trusted_devices.contains("phone"));
    assert_eq!(inner.offer_status("o1"), OfferStatus::Declined);
    assert_eq!(inner.file_target("o1", "0", PathStyle::Unix, |_| false), None);
}

#[test]
fn answering_a_missing_offer_fails() {
    let mut inner = Inner::new(settings(), "/tmp/s.json".into());
    assert_eq!(
        inner.answer_offer("nope", true, true),
        Err("offer no longer exists".to_string())
    );
    assert_eq!(inner.offer_status("nope"), OfferStatus::Missing);
}

#[test]
fn file_target_checks_the_index() {
    let mut inner = Inner::new(settings(), "/tmp/s.json".into());
    inner.register_offer(offer("o1", "phone", &["a.jpg", "../b.txt"]));
    inner.answer_offer("o1", true, false).unwrap();
    assert_eq!(inner.file_target("o1", "1", PathStyle::Unix, |_| false).as_deref(), Some("/tmp/inbox/b.txt"));
    assert_eq!(inner.file_target("o1", "+1", PathStyle::Unix, |_| false).as_deref(), Some("/tmp/inbox/b.txt"));
    assert_eq!(inner.file_target("o1", "2", PathStyle::Unix, |_| false), None);
    assert_eq!(inner.file_target("o1", "x", PathStyle::Unix, |_| false), None);
    assert_eq!(inner.file_target("o9", "0", PathStyle::Unix, |_| false), None);
    let taken = |p: String| p == "/tmp/inbox/a.jpg";
    assert_eq!(inner.file_target("o1", "0", PathStyle::Unix, taken).as_deref(), Some("/tmp/inbox/a (1).jpg"));
}

#[test]
fn server_replies() {
    let mut inner = Inner::new(settings(), "/tmp/s.json".into());
    let r = receive_offer(&mut inner, Ok(offer("o1", "phone", &["a"])));
    assert_eq!(r.code, 202);
    assert_eq!(body(&r), r#"{"status":"pending"}"#);
    let r = receive_offer(&mut inner, Err("EOF while parsing".into()));
    assert_eq!(r.code, 400);
    assert_eq!(body(&r), r#"{"error":"EOF while parsing"}"#);
    let r = report_offer_status(&inner, "o1");
    assert_eq!((r.code, body(&r)), (200, r#"{"status":"pending"}"#.to_string()));
    let r = report_offer_status(&inner, "zz");
    assert_eq!(body(&r), r#"{"status":"missing"}"#);
    inner.answer_offer("o1", false, false).unwrap();
    assert_eq!(body(&report_offer_status(&inner, "o1")), r#"{"status":"declined"}"#);
    let r = not_found();
    assert_eq!((r.code, body(&r)), (404, r#"{"error":"not found"}"#.to_string()));
    let r = transfer_not_accepted();
    assert_eq!((r.code, body(&r)), (403, r#"{"error":"transfer was not accepted"}"#.to_string()));
    let r = file_saved("/tmp/inbox/a \"b\".txt");
    assert_eq!((r.code, body(&r)), (201, r#"{"saved":"/tmp/inbox/a \"b\".txt"}"#.to_string()));
}

#[test]
fn snapshot_shows_device_peers_and_waiting_offers() {
    let mut inner = Inner::new(settings(), "/tmp/s.json".into());
    inner.set_auto_open_links(true);
    inner.register_offer(offer("o1", "a", &[]));
    inner.register_offer(offer("o2", "b", &[]));
    inner.answer_offer("o1", true, false).unwrap();
    let v4 = vec![Address { is_v4: true, text: "10.0.0.2".into() }];
    assert!(inner.peer_resolved(Some("b".into()), Some("Phone".into()), v4, 4000));
    let s = inner.snapshot();
    assert_eq!(s.device_id, "me");
    assert_eq!(s.device_name, "My laptop");
    assert_eq!(s.inbox, "/tmp/inbox");
    assert!(s.auto_open_links);
    assert_eq!(s.peers.len(), 1);
    assert_eq!(s.incoming.len(), 1);
    assert_eq!(s.incoming[0].id, "o2");
}

#[test]
fn discovery_records_and_forgets_peers() {
    let mut inner = Inner::new(settings(), "/tmp/s.json".into());
    inner.settings.trusted_devices.insert("dev-2".into());
    let addrs = || {
        vec![
            Address { is_v4: false, text: "fe80::1".into() },
            Address { is_v4: true, text: "192.168.0.7".into() },
        ]
    };
    assert!(!inner.peer_resolved(None, None, addrs(), 1));
    assert!(!inner.peer_resolved(Some("me".into()), None, addrs(), 1));
    assert!(!inner.peer_resolved(Some("dev-1".into()), None, vec![], 1));
    assert!(inner.peer_resolved(Some("dev-1".into()), None, addrs(), 9000));
    assert!(inner.peer_resolved(Some("dev-2".into()), Some("Tablet".into()), addrs(), 9001));
    let peers = inner.resolve_peers(&vec!["dev-1".into(), "dev-2".into()]).unwrap();
    assert_eq!(peers[0].name, "Nearby device");
    assert_eq!(peers[0].address, "192.168.0.7");
    assert_eq!(peers[0].port, 9000);
    assert!(!peers[0].trusted);
    assert_eq!(peers[1].name, "Tablet");
    assert!(peers[1].trusted);
    assert_eq!(
        inner.resolve_peers(&vec!["dev-1".into(), "ghost".into()]).err(),
        Some("device ghost is no longer available".to_string())
    );
    inner.peers_gone("dev-1._pombocorreio._tcp.local.");
    assert!(inner.peers.get("dev-1").is_none());
    assert!(inner.peers.get("dev-2").is_some());
}

#[test]
fn address_prefers_ipv4() {
    let only_v6 = vec![Address { is_v4: false, text: "fe80::1".into() }];
    assert_eq!(choose_address(&only_v6).as_deref(), Some("fe80::1"));
    assert_eq!(choose_address(&vec![]), None);
}

