//! The sending side of the protocol: what is offered, where requests go, and
//! the order of the steps that deliver a transfer to each chosen device.

use crate::ids::{is_uuid_text, new_uuid};
use crate::models::{FileMeta, Offer, OfferView, Peer, TextMeta};
use crate::server::{route_of, HttpMethod, RouteView};
use crate::state::{option_view, status_text, Inner, OfferStatus};
use crate::text::{decimal, decimal_string, join2, same_text};
use crate::wire::{json_status, status_member};
use vstd::prelude::*;
use vstd::string::*;

verus! {

/// The largest text that can be sent, in bytes.
pub const MAX_TEXT_BYTES: usize = 65536;

/// The message given for a text larger than `MAX_TEXT_BYTES`.
pub open spec fn text_too_large_message() -> Seq<char> {
    "text is larger than "@ + decimal(64) + " KiB"@
}

/// Refuses an empty text and one larger than `MAX_TEXT_BYTES` bytes.
pub fn check_text(text: &str) -> (r: Result<(), String>)
    ensures
        text@.len() == 0 ==> (r matches Err(e) && e@ == "enter some text first"@),
        text@.len() != 0 && text.len() > MAX_TEXT_BYTES ==> (r matches Err(e) && e@
            == text_too_large_message()),
        text@.len() != 0 && text.len() <= MAX_TEXT_BYTES ==> r is Ok,
{
    if text.is_empty() {
        return Err(String::from_str("enter some text first"));
    }
    if text.len() > MAX_TEXT_BYTES {
        let kib = decimal_string(MAX_TEXT_BYTES / 1024);
        let a = join2("text is larger than ", kib.as_str());
        let e = join2(a.as_str(), " KiB");
        return Err(e);
    }
    Ok(())
}

/// How many characters of a text are shown before it is accepted.
pub const PREVIEW_CHARS: usize = 120;

/// The first `PREVIEW_CHARS` characters of a text.
pub open spec fn preview_of(text: Seq<char>) -> Seq<char> {
    if text.len() <= PREVIEW_CHARS {
        text
    } else {
        text.take(PREVIEW_CHARS as int)
    }
}

/// What an offer says about a text: its first characters and its size in bytes.
pub fn text_meta(text: &str) -> (m: TextMeta)
    ensures
        m.preview@ == preview_of(text@),
        m.preview@.len() == if text@.len() <= PREVIEW_CHARS { text@.len() } else { PREVIEW_CHARS as nat },
        forall|i: int| 0 <= i < m.preview@.len() ==> #[trigger] m.preview@[i] == text@[i],
        m.size == text.len(),
{
    let n = text.unicode_len();
    let end = if n <= PREVIEW_CHARS { n } else { PREVIEW_CHARS };
    let preview = String::from_str(text.substring_char(0, end));
    assert(preview@ =~= preview_of(text@));
    proof {
        lemma_preview_is_the_beginning(text@);
    }
    TextMeta { preview, size: text.len() }
}

/// A preview is the beginning of its text: the first 120 characters, or the
/// whole text when it is shorter, each at the place it has in the text.
pub proof fn lemma_preview_is_the_beginning(text: Seq<char>)
    ensures
        preview_of(text).len() == if text.len() <= PREVIEW_CHARS { text.len() } else { PREVIEW_CHARS as nat },
        forall|i: int| 0 <= i < preview_of(text).len() ==> #[trigger] preview_of(text)[i] == text[i],
{
}

/// What an offer says about a picked file, given what the file system
/// reports about it; anything but a regular file is refused.
pub fn file_meta(name: &str, is_file: bool, size: u64) -> (r: Result<FileMeta, String>)
    ensures
        is_file ==> (r matches Ok(m) && m.name@ == name@ && m.size == size),
        !is_file ==> (r matches Err(e) && e@ == name@ + " is not a regular file"@),
{
    if !is_file {
        return Err(join2(name, " is not a regular file"));
    }
    Ok(FileMeta { name: String::from_str(name), size })
}

/// An error about a picked file, prefixed with the file's name.
pub fn file_error(name: &str, error: &str) -> (r: String)
    ensures
        r@ == name@ + ": "@ + error@,
{
    let a = join2(name, ": ");
    join2(a.as_str(), error)
}

/// `http://{address}:{port}`.
pub open spec fn base_url(peer: Peer) -> Seq<char> {
    "http://"@ + peer.address@ + ":"@ + decimal(peer.port as nat)
}

/// Where a device is reached.
pub fn peer_base_url(peer: &Peer) -> (r: String)
    ensures
        r@ == base_url(*peer),
{
    let a = join2("http://", peer.address.as_str());
    let b = join2(a.as_str(), ":");
    let port = decimal_string(peer.port as usize);
    join2(b.as_str(), port.as_str())
}

pub open spec fn offers_path() -> Seq<char> {
    "/v1/offers"@
}

pub open spec fn status_path(offer_id: Seq<char>) -> Seq<char> {
    "/v1/offers/"@ + offer_id
}

pub open spec fn file_path(offer_id: Seq<char>, index: nat) -> Seq<char> {
    "/v1/files/"@ + offer_id + "/"@ + decimal(index)
}

pub open spec fn text_path(offer_id: Seq<char>) -> Seq<char> {
    "/v1/text/"@ + offer_id
}

/// Where offers are posted.
pub fn offers_url(base: &str) -> (r: String)
    ensures
        r@ == base@ + offers_path(),
{
    join2(base, "/v1/offers")
}

/// Where the status of an offer is asked.
pub fn offer_status_url(base: &str, offer_id: &str) -> (r: String)
    ensures
        r@ == base@ + status_path(offer_id@),
{
    let a = join2(base, "/v1/offers/");
    let r = join2(a.as_str(), offer_id);
    assert(r@ =~= base@ + status_path(offer_id@));
    r
}

/// Where the `index`-th file of an offer is uploaded.
pub fn file_url(base: &str, offer_id: &str, index: usize) -> (r: String)
    ensures
        r@ == base@ + file_path(offer_id@, index as nat),
{
    let a = join2(base, "/v1/files/");
    let b = join2(a.as_str(), offer_id);
    let c = join2(b.as_str(), "/");
    let d = decimal_string(index);
    let r = join2(c.as_str(), d.as_str());
    assert(r@ =~= base@ + file_path(offer_id@, index as nat));
    r
}

/// Where the text of an offer is posted.
pub fn text_url(base: &str, offer_id: &str) -> (r: String)
    ensures
        r@ == base@ + text_path(offer_id@),
{
    let a = join2(base, "/v1/text/");
    let r = join2(a.as_str(), offer_id);
    assert(r@ =~= base@ + text_path(offer_id@));
    r
}


/// How many times a sender asks whether its offer was accepted before it
/// gives up (one ask every half second: one minute).
pub const MAX_POLLS: u32 = 120;

/// Where delivery to the current device stands.
#[derive(PartialEq, Eq, Structural, Clone, Copy, Debug)]
pub enum SendPhase {
    /// The offer is being posted.
    Offering,
    /// The offer was posted and this many answers were "not yet".
    Waiting(u32),
    /// The file with this index is being uploaded.
    Uploading(usize),
    /// The text is being posted.
    SendingText,
    /// Delivery ended, successfully or not.
    Finished,
}

/// What happened to the last action.
pub enum SendEvent {
    /// The request succeeded.
    Completed,
    /// The request failed, with this message.
    Failed(String),
    /// A status answer was read: the `status` member of the reply, if any.
    Status(Option<String>),
}

pub enum SendEventView {
    Completed,
    Failed(Seq<char>),
    Status(Option<Seq<char>>),
}

impl View for SendEvent {
    type V = SendEventView;

    open spec fn view(&self) -> SendEventView {
        match self {
            SendEvent::Completed => SendEventView::Completed,
            SendEvent::Failed(e) => SendEventView::Failed(e@),
            SendEvent::Status(s) => SendEventView::Status(option_view(*s)),
        }
    }
}

/// What to do next.
pub enum SendAction {
    /// Post `offer` as JSON to `url`.
    PostOffer { url: String, offer: Offer },
    /// Wait half a second, then ask `url` for the offer's status.
    PollStatus { url: String },
    /// Upload the picked file with this index to `url`.
    UploadFile { url: String, index: usize },
    /// Post the text to `url`.
    PostText { url: String },
    /// Nothing more: the transfer ended with this result.
    Done(Result<(), String>),
}

pub enum SendActionView {
    PostOffer(Seq<char>, OfferView),
    PollStatus(Seq<char>),
    UploadFile(Seq<char>, nat),
    PostText(Seq<char>),
    Done(Result<(), Seq<char>>),
}

impl View for SendAction {
    type V = SendActionView;

    open spec fn view(&self) -> SendActionView {
        match self {
            SendAction::PostOffer { url, offer } => SendActionView::PostOffer(url@, offer@),
            SendAction::PollStatus { url } => SendActionView::PollStatus(url@),
            SendAction::UploadFile { url, index } => SendActionView::UploadFile(url@, *index as nat),
            SendAction::PostText { url } => SendActionView::PostText(url@),
            SendAction::Done(r) => SendActionView::Done(
                match r {
                    Ok(()) => Ok(()),
                    Err(e) => Err(e@),
                },
            ),
        }
    }
}

/// The message given for a status reply that is not JSON, as the HTTP
/// client words a body it cannot decode.
pub open spec fn undecodable_reply_message() -> Seq<char> {
    "error decoding response body"@
}

/// The reading of a status reply: what was answered, or, for a body that is
/// not JSON, a failure.
pub fn status_event(body: &[u8]) -> (e: SendEvent)
    ensures
        match json_status(body@) {
            Some(s) => e@ == SendEventView::Status(s),
            None => e@ == SendEventView::Failed(undecodable_reply_message()),
        },
{
    match status_member(body) {
        Ok(s) => SendEvent::Status(s),
        Err(_) => SendEvent::Failed(String::from_str("error decoding response body")),
    }
}

/// Delivery of one transfer to the chosen devices, one after the other: post
/// an offer, ask until it is answered, then upload the files (or post the
/// text); the first failure ends the transfer.
pub struct SendSession {
    pub peers: Vec<Peer>,
    pub sender_id: String,
    pub sender_name: String,
    pub files: Vec<FileMeta>,
    pub text: Option<TextMeta>,
    /// The device being served.
    pub current: usize,
    /// The id of the offer made to it.
    pub offer_id: String,
    /// Where it is reached.
    pub base: String,
    pub phase: SendPhase,
}

impl SendSession {
    pub open spec fn wf(&self) -> bool {
        &&& match self.phase {
            SendPhase::Finished => true,
            _ => {
                &&& self.current < self.peers@.len()
                &&& is_uuid_text(self.offer_id@)
                &&& self.base@ == base_url(self.peers@[self.current as int])
            },
        }
        &&& match self.phase {
            SendPhase::Waiting(n) => n < MAX_POLLS,
            SendPhase::Uploading(i) => i < self.files@.len() && self.text is None,
            SendPhase::SendingText => self.text is Some,
            _ => true,
        }
    }

    /// The offer made to the current device.
    pub open spec fn offer_view(&self) -> OfferView {
        OfferView {
            id: self.offer_id@,
            sender_id: self.sender_id@,
            sender_name: self.sender_name@,
            files: self.files@,
            text: self.text,
        }
    }

    /// The transfer itself is unchanged from `self` to `next`.
    pub open spec fn same_job(&self, next: &SendSession) -> bool {
        &&& next.peers == self.peers
        &&& next.sender_id == self.sender_id
        &&& next.sender_name == self.sender_name
        &&& next.files == self.files
        &&& next.text == self.text
    }

    /// `self` serves device `k` afresh: a new offer id, and the action posts
    /// the offer to that device.
    pub open spec fn began(&self, k: int, a: SendActionView) -> bool {
        &&& self.current == k
        &&& self.phase == SendPhase::Offering
        &&& is_uuid_text(self.offer_id@)
        &&& self.base@ == base_url(self.peers@[k])
        &&& a == SendActionView::PostOffer(self.base@ + offers_path(), self.offer_view())
    }

    /// `next` still serves the device and offer of `self`.
    pub open spec fn same_target(&self, next: &SendSession) -> bool {
        next.current == self.current && next.offer_id == self.offer_id && next.base == self.base
    }

    /// After the current device is done: the next device is served, or the
    /// transfer ends successfully.
    pub open spec fn moved_on(&self, next: &SendSession, a: SendActionView) -> bool {
        if self.current + 1 < self.peers@.len() {
            next.began(self.current + 1, a)
        } else {
            next.phase == SendPhase::Finished && a == SendActionView::Done(Ok(()))
        }
    }

    /// After the current device accepted: the text is posted, or the first
    /// file uploaded, or, with nothing to deliver, the next device served.
    pub open spec fn delivering(&self, next: &SendSession, a: SendActionView) -> bool {
        if self.text is Some {
            self.same_target(next) && next.phase == SendPhase::SendingText
                && a == SendActionView::PostText(self.base@ + text_path(self.offer_id@))
        } else if self.files@.len() > 0 {
            self.same_target(next) && next.phase == SendPhase::Uploading(0)
                && a == SendActionView::UploadFile(self.base@ + file_path(self.offer_id@, 0), 0)
        } else {
            self.moved_on(next, a)
        }
    }

    pub open spec fn failed_with(next: &SendSession, a: SendActionView, e: Seq<char>) -> bool {
        next.phase == SendPhase::Finished && a == SendActionView::Done(Err(e))
    }

    /// Which events an action can produce: requests complete or fail, status
    /// questions are answered or fail.
    pub open spec fn expects(&self, e: SendEventView) -> bool {
        match self.phase {
            SendPhase::Finished => false,
            SendPhase::Waiting(_) => !(e is Completed),
            _ => !(e is Status),
        }
    }

    /// One step of delivery, from `self` to `next` on event `e`, with action `a`.
    pub open spec fn stepped(&self, next: &SendSession, e: SendEventView, a: SendActionView) -> bool {
        let name = self.peers@[self.current as int].name@;
        &&& self.same_job(next)
        &&& match e {
            SendEventView::Failed(msg) => Self::failed_with(next, a, msg),
            SendEventView::Completed => match self.phase {
                SendPhase::Offering => self.same_target(next) && next.phase == SendPhase::Waiting(0)
                    && a == SendActionView::PollStatus(self.base@ + status_path(self.offer_id@)),
                SendPhase::Uploading(i) => if i + 1 < self.files@.len() {
                    self.same_target(next) && next.phase == SendPhase::Uploading((i + 1) as usize)
                        && a == SendActionView::UploadFile(
                        self.base@ + file_path(self.offer_id@, (i + 1) as nat),
                        (i + 1) as nat,
                    )
                } else {
                    self.moved_on(next, a)
                },
                _ => self.moved_on(next, a),
            },
            SendEventView::Status(s) => match self.phase {
                SendPhase::Waiting(n) => if s == Some("accepted"@) {
                    self.delivering(next, a)
                } else if s == Some("declined"@) {
                    Self::failed_with(next, a, name + " declined the transfer"@)
                } else if n + 1 < MAX_POLLS {
                    self.same_target(next) && next.phase == SendPhase::Waiting((n + 1) as u32)
                        && a == SendActionView::PollStatus(self.base@ + status_path(self.offer_id@))
                } else {
                    Self::failed_with(next, a, name + " did not answer"@)
                },
                _ => false,
            },
        }
    }

    /// Serves device `k` afresh.
    fn begin(&mut self, k: usize) -> (a: SendAction)
        requires
            k < old(self).peers@.len(),
        ensures
            final(self).wf(),
            old(self).same_job(final(self)),
            final(self).began(k as int, a@),
    {
        self.current = k;
        self.offer_id = new_uuid();
        self.base = peer_base_url(&self.peers[k]);
        self.phase = SendPhase::Offering;
        let files = self.files.clone();
        assert(files@ =~= self.files@);
        let text = match &self.text {
            Some(t) => Some(t.clone()),
            None => None,
        };
        let offer = Offer {
            id: self.offer_id.clone(),
            sender_id: self.sender_id.clone(),
            sender_name: self.sender_name.clone(),
            files,
            text,
        };
        SendAction::PostOffer { url: offers_url(self.base.as_str()), offer }
    }

    /// Starts delivering a transfer: the first device is offered the files or
    /// the text, or, with no device chosen, the transfer is done at once.
    pub fn start(
        peers: Vec<Peer>,
        sender_id: String,
        sender_name: String,
        files: Vec<FileMeta>,
        text: Option<TextMeta>,
    ) -> (r: (SendSession, SendAction))
        ensures
            r.0.wf(),
            r.0.peers == peers,
            r.0.sender_id == sender_id,
            r.0.sender_name == sender_name,
            r.0.files == files,
            r.0.text == text,
            peers@.len() == 0 ==> r.0.phase == SendPhase::Finished && r.1@ == SendActionView::Done(Ok(())),
            peers@.len() > 0 ==> r.0.began(0, r.1@),
    {
        let mut session = SendSession {
            peers,
            sender_id,
            sender_name,
            files,
            text,
            current: 0,
            offer_id: String::new(),
            base: String::new(),
            phase: SendPhase::Finished,
        };
        if session.peers.len() == 0 {
            return (session, SendAction::Done(Ok(())));
        }
        let a = session.begin(0);
        (session, a)
    }

    fn move_on(&mut self) -> (a: SendAction)
        requires
            old(self).wf(),
            old(self).phase != SendPhase::Finished,
        ensures
            final(self).wf(),
            old(self).same_job(final(self)),
            old(self).moved_on(final(self), a@),
    {
        if self.current < self.peers.len() - 1 {
            self.begin(self.current + 1)
        } else {
            self.phase = SendPhase::Finished;
            SendAction::Done(Ok(()))
        }
    }

    /// Takes the outcome of the last action and gives the next one.
    pub fn step(&mut self, event: SendEvent) -> (a: SendAction)
        requires
            old(self).wf(),
            old(self).expects(event@),
        ensures
            final(self).wf(),
            old(self).stepped(final(self), event@, a@),
            event@ matches SendEventView::Failed(msg) ==> final(self).phase == SendPhase::Finished
                && a@ == SendActionView::Done(Err(msg)),
    {
        match event {
            SendEvent::Failed(e) => {
                self.phase = SendPhase::Finished;
                SendAction::Done(Err(e))
            },
            SendEvent::Completed => match self.phase {
                SendPhase::Offering => {
                    self.phase = SendPhase::Waiting(0);
                    SendAction::PollStatus {
                        url: offer_status_url(self.base.as_str(), self.offer_id.as_str()),
                    }
                },
                SendPhase::Uploading(i) => {
                    if i < self.files.len() - 1 {
                        self.phase = SendPhase::Uploading(i + 1);
                        SendAction::UploadFile {
                            url: file_url(self.base.as_str(), self.offer_id.as_str(), i + 1),
                            index: i + 1,
                        }
                    } else {
                        self.move_on()
                    }
                },
                _ => self.move_on(),
            },
            SendEvent::Status(s) => {
                let n = match self.phase {
                    SendPhase::Waiting(n) => n,
                    _ => 0,
                };
                proof {
                    reveal_strlit("accepted");
                    reveal_strlit("declined");
                }
                let (accepted, declined) = match &s {
                    Some(t) => (same_text(t.as_str(), "accepted"), same_text(t.as_str(), "declined")),
                    None => (false, false),
                };
                if accepted {
                    if self.text.is_some() {
                        self.phase = SendPhase::SendingText;
                        SendAction::PostText { url: text_url(self.base.as_str(), self.offer_id.as_str()) }
                    } else if self.files.len() > 0 {
                        self.phase = SendPhase::Uploading(0);
                        SendAction::UploadFile {
                            url: file_url(self.base.as_str(), self.offer_id.as_str(), 0),
                            index: 0,
                        }
                    } else {
                        self.move_on()
                    }
                } else if declined {
                    let e = join2(self.peers[self.current].name.as_str(), " declined the transfer");
                    self.phase = SendPhase::Finished;
                    SendAction::Done(Err(e))
                } else if n + 1 < MAX_POLLS {
                    self.phase = SendPhase::Waiting(n + 1);
                    SendAction::PollStatus {
                        url: offer_status_url(self.base.as_str(), self.offer_id.as_str()),
                    }
                } else {
                    let e = join2(self.peers[self.current].name.as_str(), " did not answer");
                    self.phase = SendPhase::Finished;
                    SendAction::Done(Err(e))
                }
            },
        }
    }
}


/// Files and text are only sent to a device after it accepted: an upload or
/// a text post follows either the answer "accepted" to a status question, or
/// the completion of the previous upload.
pub proof fn lemma_payload_only_after_acceptance(
    s: SendSession,
    next: SendSession,
    e: SendEventView,
    a: SendActionView,
)
    requires
        s.wf(),
        s.stepped(&next, e, a),
        a is UploadFile || a is PostText,
    ensures
        (s.phase is Waiting && e == SendEventView::Status(Some("accepted"@)))
            || (s.phase is Uploading && e is Completed),
{
}

/// A transfer only ends well once the last chosen device was served.
pub proof fn lemma_success_only_after_last_device(
    s: SendSession,
    next: SendSession,
    e: SendEventView,
    a: SendActionView,
)
    requires
        s.wf(),
        s.expects(e),
        s.stepped(&next, e, a),
        a == SendActionView::Done(Ok(())),
    ensures
        s.current + 1 == s.peers@.len(),
{
}

/// The first failure ends a transfer: whichever device is being served and
/// whatever was being done, a failed request finishes the session with that
/// failure's message, and no later device is contacted.
pub proof fn lemma_first_failure_ends_transfer(
    s: SendSession,
    next: SendSession,
    msg: Seq<char>,
    a: SendActionView,
)
    requires
        s.wf(),
        s.phase != SendPhase::Finished,
        s.stepped(&next, SendEventView::Failed(msg), a),
    ensures
        next.phase == SendPhase::Finished,
        a == SendActionView::Done(Err(msg)),
        !(a is PostOffer),
{
}

/// A transfer that reports success never saw a failure: an action
/// `Done(Ok(()))` only follows a completed request or a status answer.
pub proof fn lemma_success_never_follows_a_failure(
    s: SendSession,
    next: SendSession,
    e: SendEventView,
    a: SendActionView,
)
    requires
        s.wf(),
        s.stepped(&next, e, a),
        a == SendActionView::Done(Ok(())),
    ensures
        !(e is Failed),
{
}

/// Every request of a transfer in progress reaches the receiver's handler
/// for it: offer ids are UUIDs, which hold no `/`.
pub proof fn lemma_session_requests_are_routed(s: SendSession, index: usize)
    requires
        s.wf(),
        s.phase != SendPhase::Finished,
    ensures
        route_of(HttpMethod::Get, status_path(s.offer_id@)) == RouteView::OfferStatus(s.offer_id@),
        route_of(HttpMethod::Post, file_path(s.offer_id@, index as nat))
            == RouteView::ReceiveFile(s.offer_id@, decimal(index as nat)),
        crate::text::parse_usize(decimal(index as nat)) == Some(index),
{
    let id = s.offer_id@;
    assert(!id.contains('/')) by {
        assert forall|i: int| 0 <= i < id.len() implies id[i] != '/' by {
            if !(i == 8 || i == 13 || i == 18 || i == 23) {
                assert(crate::ids::is_lower_hex(id[i]));
            } else {
                assert(id[i] == '-');
            }
        }
    }
    crate::server::lemma_sender_requests_are_routed(id, index);
}

/// A waiting sender does what the receiver's status reply says: it delivers
/// after "accepted", stops with an error after "declined", and otherwise
/// keeps asking until it gives up.
pub proof fn lemma_sender_follows_receiver(
    s: SendSession,
    next: SendSession,
    inner: Inner,
    body: Seq<u8>,
    e: SendEventView,
    a: SendActionView,
)
    requires
        s.wf(),
        s.phase is Waiting,
        json_status(body) == Some(Some(status_text(inner.status_of(s.offer_id@)))),
        e == SendEventView::Status(json_status(body)->0),
        s.stepped(&next, e, a),
    ensures
        inner.status_of(s.offer_id@) == OfferStatus::Accepted ==> s.delivering(&next, a),
        inner.status_of(s.offer_id@) == OfferStatus::Declined ==> a == SendActionView::Done(
            Err(s.peers@[s.current as int].name@ + " declined the transfer"@),
        ),
        (inner.status_of(s.offer_id@) == OfferStatus::Pending || inner.status_of(s.offer_id@)
            == OfferStatus::Missing) ==> (a is PollStatus || a == SendActionView::Done(
            Err(s.peers@[s.current as int].name@ + " did not answer"@),
        )),
{
    reveal_strlit("accepted");
    reveal_strlit("declined");
    reveal_strlit("pending");
    reveal_strlit("missing");
    assert("pending"@ != "accepted"@) by {
        assert("pending"@[0] != "accepted"@[0]);
    }
    assert("pending"@ != "declined"@) by {
        assert("pending"@[0] != "declined"@[0]);
    }
    assert("missing"@ != "accepted"@) by {
        assert("missing"@[0] != "accepted"@[0]);
    }
    assert("missing"@ != "declined"@) by {
        assert("missing"@[0] != "declined"@[0]);
    }
    assert("declined"@ != "accepted"@) by {
        assert("declined"@[0] != "accepted"@[0]);
    }
}

} // verus!
