use pombo_correio::models::{FileMeta, Peer};
use pombo_correio::server::report_offer_status;
use pombo_correio::settings::{DeviceSet, Settings};
use pombo_correio::state::Inner;
use pombo_correio::transfer::{
    check_text, file_error, file_meta, status_event, text_meta, SendAction, SendEvent, SendPhase, SendSession,
    MAX_POLLS, MAX_TEXT_BYTES,
};

fn peer(id: &str, name: &str, port: u16) -> Peer {
    Peer { id: id.into(), name: name.into(), address: "10.0.0.9".into(), port, trusted: false }
}

fn files(n: usize) -> Vec<FileMeta> {
    (0..n).map(|i| FileMeta { name: format!("f{i}"), size: i as u64 }).collect()
}

fn accepted() -> SendEvent {
    SendEvent::Status(Some("accepted".into()))
}

fn describe(a: &SendAction) -> String {
    match a {
        SendAction::PostOffer { url, offer } => format!("offer {url} {}", offer.files.len()),
        SendAction::PollStatus { url } => format!("poll {url}"),
        SendAction::UploadFile { url, index } => format!("upload {url} {index}"),
        SendAction::PostText { url } => format!("text {url}"),
        SendAction::Done(Ok(())) => "done".into(),
        SendAction::Done(Err(e)) => format!("error {e}"),
    }
}

#[test]
fn text_checks() {
    assert_eq!(check_text(""), Err("enter some text first".to_string()));
    assert_eq!(check_text("hi"), Ok(()));
    assert_eq!(check_text(&"x".repeat(MAX_TEXT_BYTES)), Ok(()));
    assert_eq!(
        check_text(&"x".repeat(MAX_TEXT_BYTES + 1)),
        Err("text is larger than 64 KiB".to_string())
    );
    let wide = "é".repeat(MAX_TEXT_BYTES / 2 + 1);
    assert!(check_text(&wide).is_err());
}

#[test]
fn text_preview_and_size() {
    let m = text_meta("héllo");
    assert_eq!(m.preview, "héllo");
    assert_eq!(m.size, 6);
    let long: String = "ab".repeat(100);
    let m = text_meta(&long);
    assert_eq!(m.preview, long[..120]);
    assert_eq!(m.size, 200);
}

#[test]
fn file_checks() {
    let m = file_meta("a.jpg", true, 12).unwrap();
    assert_eq!((m.name.as_str(), m.size), ("a.jpg", 12));
    assert_eq!(file_meta("dir", false, 0).err(), Some("dir is not a regular file".to_string()));
    assert_eq!(file_error("a.jpg", "permission denied"), "a.jpg: permission denied");
}

#[test]
fn files_are_uploaded_after_acceptance_to_each_device() {
    let (mut s, a) = SendSession::start(
        vec![peer("p1", "One", 1000), peer("p2", "Two", 2000)],
        "me".into(),
        "Me".into(),
        files(2),
        None,
    );
    assert_eq!(describe(&a), "offer http://10.0.0.9:1000/v1/offers 2");
    let first_id = s.offer_id.clone();
    let a = s.step(SendEvent::Completed);
    assert_eq!(describe(&a), format!("poll http://10.0.0.9:1000/v1/offers/{first_id}"));
    let a = s.step(SendEvent::Status(Some("pending".into())));
    assert_eq!(describe(&a), format!("poll http://10.0.0.9:1000/v1/offers/{first_id}"));
    let a = s.step(accepted());
    assert_eq!(describe(&a), format!("upload http://10.0.0.9:1000/v1/files/{first_id}/0 0"));
    let a = s.step(SendEvent::Completed);
    assert_eq!(describe(&a), format!("upload http://10.0.0.9:1000/v1/files/{first_id}/1 1"));
    let a = s.step(SendEvent::Completed);
    assert_eq!(describe(&a), "offer http://10.0.0.9:2000/v1/offers 2");
    assert_ne!(s.offer_id, first_id);
    let a = s.step(SendEvent::Completed);
    assert!(describe(&a).starts_with("poll http://10.0.0.9:2000/v1/offers/"));
    s.step(accepted());
    s.step(SendEvent::Completed);
    let a = s.step(SendEvent::Completed);
    assert_eq!(describe(&a), "done");
    assert_eq!(s.phase, SendPhase::Finished);
}

#[test]
fn text_is_posted_after_acceptance() {
    let meta = text_meta("hello");
    let (mut s, a) = SendSession::start(vec![peer("p", "Phone", 80)], "me".into(), "Me".into(), vec![], Some(meta));
    assert_eq!(describe(&a), "offer http://10.0.0.9:80/v1/offers 0");
    s.step(SendEvent::Completed);
    let a = s.step(accepted());
    assert_eq!(describe(&a), format!("text http://10.0.0.9:80/v1/text/{}", s.offer_id));
    assert_eq!(describe(&s.step(SendEvent::Completed)), "done");
}

#[test]
fn declined_transfer_stops() {
    let (mut s, _) = SendSession::start(vec![peer("p", "Phone", 80)], "me".into(), "Me".into(), files(1), None);
    s.step(SendEvent::Completed);
    let a = s.step(SendEvent::Status(Some("declined".into())));
    assert_eq!(describe(&a), "error Phone declined the transfer");
}

#[test]
fn silent_device_is_given_up() {
    let (mut s, _) = SendSession::start(vec![peer("p", "Phone", 80)], "me".into(), "Me".into(), files(1), None);
    s.step(SendEvent::Completed);
    for _ in 0..MAX_POLLS - 1 {
        let a = s.step(SendEvent::Status(None));
        assert!(describe(&a).starts_with("poll "));
    }
    let a = s.step(SendEvent::Status(Some("pending".into())));
    assert_eq!(describe(&a), "error Phone did not answer");
}

#[test]
fn failures_end_the_transfer() {
    let (mut s, _) = SendSession::start(vec![peer("p", "Phone", 80)], "me".into(), "Me".into(), files(1), None);
    let a = s.step(SendEvent::Failed("connection refused".into()));
    assert_eq!(describe(&a), "error connection refused");
    let (_, a) = SendSession::start(vec![], "me".into(), "Me".into(), files(1), None);
    assert_eq!(describe(&a), "done");
}

#[test]
fn nothing_to_deliver_moves_on() {
    let (mut s, _) = SendSession::start(vec![peer("p", "Phone", 80)], "me".into(), "Me".into(), vec![], None);
    s.step(SendEvent::Completed);
    assert_eq!(describe(&s.step(accepted())), "done");
}

#[test]
fn sender_follows_the_receivers_answer() {
    let (mut s, a) = SendSession::start(vec![peer("p", "Desk", 80)], "me".into(), "Me".into(), files(1), None);
    let offer = match a {
        SendAction::PostOffer { offer, .. } => offer,
        other => panic!("unexpected {}", describe(&other)),
    };
    let mut receiver = Inner::new(
        Settings {
            device_id: "desk".into(),
            device_name: "Desk".into(),
            inbox: "/tmp/in".into(),
            trusted_devices: DeviceSet::new(),
            auto_open_links: false,
        },
        "/tmp/s.json".into(),
    );
    let id = offer.id.clone();
    receiver.register_offer(offer);
    s.step(SendEvent::Completed);
    let pending = report_offer_status(&receiver, &id);
    assert!(describe(&s.step(status_event(&pending.body))).starts_with("poll "));
    receiver.answer_offer(&id, true, false).unwrap();
    let accepted = report_offer_status(&receiver, &id);
    let a = s.step(status_event(&accepted.body));
    assert_eq!(describe(&a), format!("upload http://10.0.0.9:80/v1/files/{id}/0 0"));
}
