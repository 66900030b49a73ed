use pombo_correio::server::{route, HttpMethod, Route};
use pombo_correio::text::{contains_text, decimal_string, parse_index, starts_with};
use pombo_correio::transfer::{
    file_url, offer_status_url, offers_url, peer_base_url, status_event, text_url, SendEvent,
};
use pombo_correio::models::Peer;

fn route_text(m: HttpMethod, url: &str) -> String {
    match route(m, url) {
        Route::ReceiveOffer => "offer".to_string(),
        Route::OfferStatus(id) => format!("status:{id}"),
        Route::ReceiveFile(id, index) => format!("file:{id}:{index}"),
        Route::NotFound => "none".to_string(),
    }
}

#[test]
fn routes_follow_the_path() {
    assert_eq!(route_text(HttpMethod::Post, "/v1/offers"), "offer");
    assert_eq!(route_text(HttpMethod::Post, "//v1/offers//"), "offer");
    assert_eq!(route_text(HttpMethod::Get, "/v1/offers"), "none");
    assert_eq!(route_text(HttpMethod::Get, "/v1/offers/abc"), "status:abc");
    assert_eq!(route_text(HttpMethod::Get, "/v1/offers/abc/"), "status:abc");
    assert_eq!(route_text(HttpMethod::Get, "/v1/offers/a/b"), "none");
    assert_eq!(route_text(HttpMethod::Post, "/v1/offers/abc"), "none");
    assert_eq!(route_text(HttpMethod::Post, "/v1/files/abc/3"), "file:abc:3");
    assert_eq!(route_text(HttpMethod::Post, "/v1/files//3"), "file::3");
    assert_eq!(route_text(HttpMethod::Post, "/v1/files/abc"), "none");
    assert_eq!(route_text(HttpMethod::Post, "/v1/files/a/b/c"), "none");
    assert_eq!(route_text(HttpMethod::Get, "/v1/files/abc/3"), "none");
    assert_eq!(route_text(HttpMethod::Other, "/v1/offers"), "none");
    assert_eq!(route_text(HttpMethod::Post, "/v1/text/abc"), "none");
    assert_eq!(route_text(HttpMethod::Post, "/"), "none");
    assert_eq!(route_text(HttpMethod::Post, "/v1/offers?x=1"), "none");
}

#[test]
fn index_reads_like_parse() {
    assert_eq!(parse_index("0"), Some(0));
    assert_eq!(parse_index("42"), Some(42));
    assert_eq!(parse_index("+7"), Some(7));
    assert_eq!(parse_index("007"), Some(7));
    assert_eq!(parse_index(""), None);
    assert_eq!(parse_index("+"), None);
    assert_eq!(parse_index("-1"), None);
    assert_eq!(parse_index("1a"), None);
    assert_eq!(parse_index(&usize::MAX.to_string()), Some(usize::MAX));
    assert_eq!(parse_index("99999999999999999999999999"), None);
    for s in ["", "+", "-0", "12", " 1", "18446744073709551616", "٣"] {
        assert_eq!(parse_index(s), s.parse::<usize>().ok());
    }
}

#[test]
fn decimal_reads_back() {
    for n in [0usize, 9, 10, 65535, 1234567, usize::MAX] {
        assert_eq!(decimal_string(n), n.to_string());
        assert_eq!(parse_index(&decimal_string(n)), Some(n));
    }
}

#[test]
fn text_search_helpers() {
    assert!(starts_with("v1/offers/x", "v1/offers/"));
    assert!(!starts_with("v1", "v1/offers/"));
    assert!(contains_text("abc._pombocorreio._tcp.local.", "abc"));
    assert!(contains_text("anything", ""));
    assert!(!contains_text("ab", "abc"));
}

#[test]
fn sender_urls_reach_the_receiver_routes() {
    let peer = Peer {
        id: "p".into(),
        name: "Laptop".into(),
        address: "192.168.1.20".into(),
        port: 53317,
        trusted: false,
    };
    let base = peer_base_url(&peer);
    assert_eq!(base, "http://192.168.1.20:53317");
    assert_eq!(offers_url(&base), "http://192.168.1.20:53317/v1/offers");
    let status = offer_status_url(&base, "o-1");
    assert_eq!(status, "http://192.168.1.20:53317/v1/offers/o-1");
    let file = file_url(&base, "o-1", 12);
    assert_eq!(file, "http://192.168.1.20:53317/v1/files/o-1/12");
    assert_eq!(text_url(&base, "o-1"), "http://192.168.1.20:53317/v1/text/o-1");
    assert_eq!(route_text(HttpMethod::Get, &status[base.len()..]), "status:o-1");
    assert_eq!(route_text(HttpMethod::Post, &file[base.len()..]), "file:o-1:12");
}

#[test]
fn status_replies_are_read() {
    match status_event(br#"{"status":"accepted"}"#) {
        SendEvent::Status(Some(s)) => assert_eq!(s, "accepted"),
        _ => panic!("expected a status"),
    }
    match status_event(br#"{"other":1}"#) {
        SendEvent::Status(None) => {}
        _ => panic!("expected no status"),
    }
    match status_event(br#"{"status":3}"#) {
        SendEvent::Status(None) => {}
        _ => panic!("expected no status"),
    }
    match status_event(b"not json") {
        SendEvent::Failed(e) => assert_eq!(e, "error decoding response body"),
        _ => panic!("expected a failure"),
    }
}
