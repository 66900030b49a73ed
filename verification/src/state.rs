//! What a device knows at run time: its settings, the devices nearby, and the
//! offers it has received; and the decisions taken on them.

use crate::models::{AppSnapshot, Offer, OfferView, Peer};
use crate::settings::Settings;
use crate::storage::{destination_outcome, safe_destination, PathStyle};
use crate::table::Table;
use crate::text::{join2, occurs_in, parse_index, parse_usize, same_text};
use vstd::prelude::*;
use vstd::string::*;

verus! {

/// An offer together with the user's answer, if any.
pub struct PendingOffer {
    pub offer: Offer,
    pub accepted: Option<bool>,
}

impl View for PendingOffer {
    type V = (OfferView, Option<bool>);

    open spec fn view(&self) -> (OfferView, Option<bool>) {
        (self.offer@, self.accepted)
    }
}

/// Where an offer stands, as a sender polling for it is told.
#[derive(PartialEq, Eq, Structural, Clone, Copy, Debug)]
pub enum OfferStatus {
    Accepted,
    Declined,
    Pending,
    Missing,
}

pub open spec fn status_text(s: OfferStatus) -> Seq<char> {
    match s {
        OfferStatus::Accepted => "accepted"@,
        OfferStatus::Declined => "declined"@,
        OfferStatus::Pending => "pending"@,
        OfferStatus::Missing => "missing"@,
    }
}

impl OfferStatus {
    /// The word used for the status on the wire.
    pub fn as_text(&self) -> (r: &'static str)
        ensures
            r@ == status_text(*self),
    {
        match self {
            OfferStatus::Accepted => "accepted",
            OfferStatus::Declined => "declined",
            OfferStatus::Pending => "pending",
            OfferStatus::Missing => "missing",
        }
    }
}

/// The status reported for an answer: accepted, declined, or not answered yet.
pub open spec fn answer_status(accepted: Option<bool>) -> OfferStatus {
    match accepted {
        Some(true) => OfferStatus::Accepted,
        Some(false) => OfferStatus::Declined,
        None => OfferStatus::Pending,
    }
}

/// The state shared by the receiving server, the discovery listener and the
/// user interface.
pub struct Inner {
    pub settings: Settings,
    pub settings_path: String,
    pub peers: Table<Peer>,
    pub offers: Table<PendingOffer>,
}

/// The offers that still wait for the user's answer, in storage order.
pub open spec fn unanswered(s: Seq<PendingOffer>) -> Seq<OfferView>
    decreases s.len(),
{
    if s.len() == 0 {
        Seq::empty()
    } else if s.last().accepted is None {
        unanswered(s.drop_last()).push(s.last().offer@)
    } else {
        unanswered(s.drop_last())
    }
}

/// `o` is among the offers `v`.
pub open spec fn lists_offer(v: Seq<Offer>, o: OfferView) -> bool {
    v.map_values(|x: Offer| x@).contains(o)
}

/// The address announced by a service: its first IPv4 address, else its first
/// address, in the order given.
pub open spec fn pick_address(addrs: Seq<Address>) -> Option<Seq<char>> {
    if addrs.len() == 0 {
        None
    } else {
        match first_v4(addrs) {
            Some(a) => Some(a),
            None => Some(addrs[0].text@),
        }
    }
}

pub open spec fn first_v4(addrs: Seq<Address>) -> Option<Seq<char>>
    decreases addrs.len(),
{
    if addrs.len() == 0 {
        None
    } else if addrs[0].is_v4 {
        Some(addrs[0].text@)
    } else {
        first_v4(addrs.drop_first())
    }
}

/// One address of a resolved service, as text.
pub struct Address {
    pub is_v4: bool,
    pub text: String,
}

pub open spec fn option_view(o: Option<String>) -> Option<Seq<char>> {
    match o {
        Some(s) => Some(s@),
        None => None,
    }
}

/// The first IPv4 address, else the first address.
pub fn choose_address(addresses: &Vec<Address>) -> (r: Option<String>)
    ensures
        option_view(r) == pick_address(addresses@),
{
    if addresses.len() == 0 {
        return None;
    }
    let mut i: usize = 0;
    assert(addresses@.skip(0) =~= addresses@);
    while i < addresses.len()
        invariant
            i <= addresses@.len(),
            first_v4(addresses@) == first_v4(addresses@.skip(i as int)),
        decreases addresses@.len() - i,
    {
        assert(addresses@.skip(i as int).drop_first() =~= addresses@.skip(i + 1));
        if addresses[i].is_v4 {
            return Some(addresses[i].text.clone());
        }
        i = i + 1;
    }
    assert(addresses@.skip(i as int).len() == 0);
    Some(addresses[0].text.clone())
}

impl Inner {
    pub open spec fn wf(&self) -> bool {
        &&& self.settings.wf()
        &&& self.peers.wf()
        &&& self.offers.wf()
        &&& forall|k: Seq<char>| #[trigger] self.peers@.contains_key(k) ==> self.peers@[k].id@ == k
        &&& self.no_peer_is_self()
        &&& forall|k: Seq<char>| #[trigger] self.offers@.contains_key(k) ==> self.offers@[k].offer.id@ == k
    }

    /// This device never lists itself among the devices nearby.
    pub open spec fn no_peer_is_self(&self) -> bool {
        !self.peers@.contains_key(self.settings.device_id@)
    }

    /// The offers with their answers, by offer id.
    pub open spec fn offer_views(&self) -> Map<Seq<char>, (OfferView, Option<bool>)> {
        self.offers@.map_values(|p: PendingOffer| p@)
    }

    /// Whether a device id is trusted.
    pub open spec fn trusts(&self, id: Seq<char>) -> bool {
        self.settings.trusted_devices@.contains(id)
    }

    /// The status a sender polling for `id` is told.
    pub open spec fn status_of(&self, id: Seq<char>) -> OfferStatus {
        if self.offers@.contains_key(id) {
            answer_status(self.offers@[id].accepted)
        } else {
            OfferStatus::Missing
        }
    }

    /// Offer `o` is stored under its id and has no answer yet.
    pub open spec fn waits_for_answer(&self, o: OfferView) -> bool {
        &&& self.offers@.contains_key(o.id)
        &&& self.offers@[o.id].accepted is None
        &&& self.offers@[o.id].offer@ == o
    }

    /// Whether the `index`-th file of offer `id` may be received.
    pub open spec fn may_receive(&self, id: Seq<char>, index: int) -> bool {
        &&& self.offers@.contains_key(id)
        &&& self.offers@[id].accepted == Some(true)
        &&& 0 <= index < self.offers@[id].offer.files@.len()
    }

    /// Receiving `offer` takes `self` to `next` and reports `status`: the
    /// offer is stored under its id, already accepted when its sender is
    /// trusted and waiting for an answer otherwise.
    pub open spec fn registered(&self, next: &Inner, offer: Offer, status: OfferStatus) -> bool {
        let trusted = self.trusts(offer.sender_id@);
        &&& next.settings == self.settings
        &&& next.settings_path == self.settings_path
        &&& next.peers@ == self.peers@
        &&& next.offers@ == self.offers@.insert(
            offer.id@,
            PendingOffer { offer, accepted: if trusted { Some(true) } else { None } },
        )
        &&& status == if trusted { OfferStatus::Accepted } else { OfferStatus::Pending }
    }

    /// Answering offer `id` takes `self` to `next` with result `r`: a missing
    /// offer is an error and changes nothing; otherwise the answer is recorded,
    /// an accepted offer with `trust` makes its sender trusted, and the result
    /// says whether the settings changed.
    pub open spec fn answered(
        &self,
        next: &Inner,
        id: Seq<char>,
        accept: bool,
        trust: bool,
        r: Result<bool, String>,
    ) -> bool {
        &&& next.settings_path == self.settings_path
        &&& next.peers@ == self.peers@
        &&& next.settings.device_id == self.settings.device_id
        &&& next.settings.device_name == self.settings.device_name
        &&& next.settings.inbox == self.settings.inbox
        &&& next.settings.auto_open_links == self.settings.auto_open_links
        &&& if !self.offers@.contains_key(id) {
            &&& r matches Err(e) && e@ == "offer no longer exists"@
            &&& next.offers@ == self.offers@
            &&& next.settings.trusted_devices@ == self.settings.trusted_devices@
        } else {
            let sender = self.offers@[id].offer.sender_id@;
            &&& r == Ok::<bool, String>(accept && trust)
            &&& next.offer_views() == self.offer_views().insert(id, (self.offers@[id].offer@, Some(accept)))
            &&& next.settings.trusted_devices@ == if accept && trust {
                self.settings.trusted_devices@.insert(sender)
            } else {
                self.settings.trusted_devices@
            }
        }
    }

    /// A fresh state: the given settings, nobody nearby, no offers.
    pub fn new(settings: Settings, settings_path: String) -> (s: Inner)
        requires
            settings.wf(),
        ensures
            s.wf(),
            s.settings == settings,
            s.settings_path == settings_path,
            s.peers@ == Map::<Seq<char>, Peer>::empty(),
            s.offers@ == Map::<Seq<char>, PendingOffer>::empty(),
    {
        Inner { settings, settings_path, peers: Table::new(), offers: Table::new() }
    }

    /// Stores a received offer and tells whether it was accepted on arrival.
    pub fn register_offer(&mut self, offer: Offer) -> (status: OfferStatus)
        requires
            old(self).wf(),
        ensures
            final(self).wf(),
            old(self).registered(final(self), offer, status),
    {
        let trusted = self.settings.trusted_devices.contains(offer.sender_id.as_str());
        let key = offer.id.clone();
        let pending = PendingOffer { offer, accepted: if trusted { Some(true) } else { None } };
        self.offers.insert(key, pending);
        if trusted {
            OfferStatus::Accepted
        } else {
            OfferStatus::Pending
        }
    }

    /// The status of offer `offer_id`.
    pub fn offer_status(&self, offer_id: &str) -> (r: OfferStatus)
        requires
            self.wf(),
        ensures
            r == self.status_of(offer_id@),
    {
        match self.offers.get(offer_id) {
            Some(pending) => match pending.accepted {
                Some(true) => OfferStatus::Accepted,
                Some(false) => OfferStatus::Declined,
                None => OfferStatus::Pending,
            },
            None => OfferStatus::Missing,
        }
    }

    /// Records the user's answer to an offer; with `accept` and `trust`, its
    /// sender is trusted from then on. `Ok(true)` means the settings changed
    /// and should be saved.
    pub fn answer_offer(&mut self, offer_id: &str, accept: bool, trust: bool) -> (r: Result<bool, String>)
        requires
            old(self).wf(),
        ensures
            final(self).wf(),
            old(self).answered(final(self), offer_id@, accept, trust, r),
    {
        match self.offers.find(offer_id) {
            None => Err(String::from_str("offer no longer exists")),
            Some(i) => {
                let ghost before = *self;
                let current = self.offers.value_at(i);
                let offer = current.offer.clone();
                let sender_id = current.offer.sender_id.clone();
                assert(sender_id@ == before.offers@[offer_id@].offer.sender_id@);
                self.offers.set_value_at(i, PendingOffer { offer, accepted: Some(accept) });
                proof {
                    assert(self.offers.key_seq()[i as int] == offer_id@);
                    assert(self.offer_views() =~= before.offer_views().insert(
                        offer_id@,
                        (before.offers@[offer_id@].offer@, Some(accept)),
                    ));
                }
                if accept && trust {
                    self.settings.trusted_devices.insert(sender_id);
                    Ok(true)
                } else {
                    Ok(false)
                }
            },
        }
    }

    /// Switches opening received links automatically on or off.
    pub fn set_auto_open_links(&mut self, enabled: bool)
        requires
            old(self).wf(),
        ensures
            final(self).wf(),
            final(self).settings.auto_open_links == enabled,
            final(self).settings.device_id == old(self).settings.device_id,
            final(self).settings.device_name == old(self).settings.device_name,
            final(self).settings.inbox == old(self).settings.inbox,
            final(self).settings.trusted_devices == old(self).settings.trusted_devices,
            final(self).settings_path == old(self).settings_path,
            final(self).peers == old(self).peers,
            final(self).offers == old(self).offers,
    {
        self.settings.auto_open_links = enabled;
    }

    /// Where the `index_text`-th file of transfer `transfer_id` is written, if
    /// it may be received: the index must read as a number, the offer must
    /// exist and be accepted, and it must announce that many files. The path
    /// is chosen by `safe_destination` in the inbox, reading paths in `style`.
    pub fn file_target<F: Fn(String) -> bool>(
        &self,
        transfer_id: &str,
        index_text: &str,
        style: PathStyle,
        is_taken: F,
    ) -> (r: Option<String>)
        requires
            self.wf(),
            forall|p: String| is_taken.requires((p,)),
        ensures
            r is Some <==> (parse_usize(index_text@) matches Some(i) && self.may_receive(transfer_id@, i as int)),
            r matches Some(path) ==> destination_outcome(
                is_taken,
                self.settings.inbox@,
                self.offers@[transfer_id@].offer.files@[parse_usize(index_text@)->0 as int].name@,
                style,
                path@,
            ),
    {
        let index = match parse_index(index_text) {
            Some(i) => i,
            None => return None,
        };
        let pending = match self.offers.get(transfer_id) {
            Some(p) => p,
            None => return None,
        };
        if pending.accepted != Some(true) {
            return None;
        }
        if index >= pending.offer.files.len() {
            return None;
        }
        let file = &pending.offer.files[index];
        Some(safe_destination(self.settings.inbox.as_str(), file.name.as_str(), style, is_taken))
    }

    /// The message given when a chosen device has gone away.
    pub open spec fn unavailable_message(id: Seq<char>) -> Seq<char> {
        "device "@ + id + " is no longer available"@
    }

    /// The nearby devices with the given ids, in the order given; the first id
    /// that names no nearby device is reported as an error.
    pub fn resolve_peers(&self, peer_ids: &Vec<String>) -> (r: Result<Vec<Peer>, String>)
        requires
            self.wf(),
        ensures
            match r {
                Ok(v) => v@.len() == peer_ids@.len() && forall|i: int|
                    0 <= i < v@.len() ==> self.peers@.contains_key(#[trigger] peer_ids@[i]@)
                        && v@[i] == self.peers@[peer_ids@[i]@],
                Err(e) => exists|i: int|
                    0 <= i < peer_ids@.len() && !self.peers@.contains_key(#[trigger] peer_ids@[i]@)
                        && (forall|j: int| 0 <= j < i ==> self.peers@.contains_key(#[trigger] peer_ids@[j]@))
                        && e@ == Self::unavailable_message(peer_ids@[i]@),
            },
    {
        let mut found: Vec<Peer> = Vec::new();
        let mut i: usize = 0;
        while i < peer_ids.len()
            invariant
                self.wf(),
                i <= peer_ids@.len(),
                found@.len() == i,
                forall|j: int|
                    0 <= j < i ==> self.peers@.contains_key(#[trigger] peer_ids@[j]@)
                        && found@[j] == self.peers@[peer_ids@[j]@],
            decreases peer_ids@.len() - i,
        {
            match self.peers.get(peer_ids[i].as_str()) {
                Some(p) => {
                    found.push(p.clone());
                },
                None => {
                    let a = join2("device ", peer_ids[i].as_str());
                    let e = join2(a.as_str(), " is no longer available");
                    assert(e@ =~= Self::unavailable_message(peer_ids@[i as int]@));
                    return Err(e);
                },
            }
            i = i + 1;
        }
        Ok(found)
    }

    /// The message-free outcome of a resolved service announcement: the peer
    /// recorded under its id, or `None` when the announcement is ignored
    /// (no id, this device's own id, or no address).
    pub open spec fn resolved_peer(
        &self,
        id: Option<Seq<char>>,
        name: Option<Seq<char>>,
        addrs: Seq<Address>,
    ) -> Option<(Seq<char>, Seq<char>, Seq<char>)> {
        match id {
            None => None,
            Some(i) => if i == self.settings.device_id@ {
                None
            } else {
                match pick_address(addrs) {
                    None => None,
                    Some(a) => Some((i, match name { Some(n) => n, None => "Nearby device"@ }, a)),
                }
            },
        }
    }

    /// A nearby device announced itself: unless the announcement is ignored,
    /// it is recorded (or refreshed) under its id, marked trusted when this
    /// device trusts it. Returns whether anything changed.
    pub fn peer_resolved(
        &mut self,
        id: Option<String>,
        name: Option<String>,
        addresses: Vec<Address>,
        port: u16,
    ) -> (changed: bool)
        requires
            old(self).wf(),
        ensures
            final(self).wf(),
            final(self).settings == old(self).settings,
            final(self).settings_path == old(self).settings_path,
            final(self).offers == old(self).offers,
            changed == old(self).resolved_peer(option_view(id), option_view(name), addresses@) is Some,
            !changed ==> final(self).peers@ == old(self).peers@,
            changed ==> ({
                let (i, n, a) = old(self).resolved_peer(option_view(id), option_view(name), addresses@)->0;
                let p = final(self).peers@[i];
                &&& final(self).peers@ == old(self).peers@.insert(i, p)
                &&& p.id@ == i
                &&& p.name@ == n
                &&& p.address@ == a
                &&& p.port == port
                &&& p.trusted == old(self).trusts(i)
            }),
    {
        let peer_id = match id {
            Some(i) => i,
            None => return false,
        };
        if same_text(peer_id.as_str(), self.settings.device_id.as_str()) {
            return false;
        }
        let address = match choose_address(&addresses) {
            Some(a) => a,
            None => return false,
        };
        let name = match name {
            Some(n) => n,
            None => String::from_str("Nearby device"),
        };
        let trusted = self.settings.trusted_devices.contains(peer_id.as_str());
        let key = peer_id.clone();
        self.peers.insert(key, Peer { id: peer_id, name, address, port, trusted });
        true
    }

    /// A service announcement was withdrawn: every device whose id occurs in
    /// its full name is forgotten.
    pub fn peers_gone(&mut self, fullname: &str)
        requires
            old(self).wf(),
        ensures
            final(self).wf(),
            final(self).settings == old(self).settings,
            final(self).settings_path == old(self).settings_path,
            final(self).offers == old(self).offers,
            final(self).peers@ == old(self).peers@.remove_keys(
                Set::new(|k: Seq<char>| occurs_in(k, fullname@)),
            ),
            forall|k: Seq<char>| #[trigger] final(self).peers@.contains_key(k) ==> !occurs_in(
                final(self).peers@[k].id@,
                fullname@,
            ),
    {
        self.peers.remove_keys_in(fullname);
    }

    /// What the user interface shows: this device, the devices nearby, and
    /// the offers still waiting for an answer.
    pub fn snapshot(&self) -> (s: AppSnapshot)
        requires
            self.wf(),
        ensures
            s.device_id == self.settings.device_id,
            s.device_name == self.settings.device_name,
            s.inbox == self.settings.inbox,
            s.auto_open_links == self.settings.auto_open_links,
            s.peers@ == self.peers.value_seq(),
            s.incoming@.map_values(|o: Offer| o@) == unanswered(self.offers.value_seq()),
            forall|o: OfferView| #[trigger] lists_offer(s.incoming@, o) <==> self.waits_for_answer(o),
    {
        let mut peers: Vec<Peer> = Vec::new();
        let n = self.peers.len();
        let mut i: usize = 0;
        while i < n
            invariant
                self.wf(),
                n == self.peers.value_seq().len(),
                i <= n,
                peers@ == self.peers.value_seq().take(i as int),
            decreases n - i,
        {
            peers.push(self.peers.value_at(i).clone());
            assert(peers@ =~= self.peers.value_seq().take(i + 1));
            i = i + 1;
        }
        assert(self.peers.value_seq().take(n as int) =~= self.peers.value_seq());
        let mut incoming: Vec<Offer> = Vec::new();
        let m = self.offers.len();
        let mut j: usize = 0;
        while j < m
            invariant
                self.wf(),
                m == self.offers.value_seq().len(),
                j <= m,
                incoming@.map_values(|o: Offer| o@) == unanswered(self.offers.value_seq().take(j as int)),
            decreases m - j,
        {
            let pending = self.offers.value_at(j);
            let ghost prefix = self.offers.value_seq().take(j + 1);
            assert(prefix.drop_last() =~= self.offers.value_seq().take(j as int));
            assert(prefix.last() == *pending);
            if pending.accepted.is_none() {
                let ghost before = incoming@;
                incoming.push(pending.offer.clone());
                assert(incoming@.map_values(|o: Offer| o@) =~= before.map_values(|o: Offer| o@).push(pending.offer@));
            }
            j = j + 1;
        }
        assert(self.offers.value_seq().take(m as int) =~= self.offers.value_seq());
        proof {
            assert forall|o: OfferView| #[trigger] lists_offer(incoming@, o) <==> self.waits_for_answer(o) by {
                lemma_snapshot_lists_waiting_offers(*self, o);
            }
        }
        AppSnapshot {
            device_id: self.settings.device_id.clone(),
            device_name: self.settings.device_name.clone(),
            inbox: self.settings.inbox.clone(),
            peers,
            incoming,
            auto_open_links: self.settings.auto_open_links,
        }
    }
}


/// In every state the library keeps, each nearby device is recorded under
/// its own id, and none of them is this device.
pub proof fn lemma_nearby_devices_are_others(inner: Inner)
    requires
        inner.wf(),
    ensures
        forall|k: Seq<char>| #[trigger] inner.peers@.contains_key(k) ==> inner.peers@[k].id@ == k
            && k != inner.settings.device_id@,
{
}

/// A device accepted with "trust" is remembered: once an offer from it was
/// accepted with trust, its next offer is accepted on arrival, without asking
/// the user, and its files may be received; trust, once given, stays.
pub proof fn lemma_trusted_sender_is_not_asked_again(
    a: Inner,
    b: Inner,
    c: Inner,
    answered_id: Seq<char>,
    r: Result<bool, String>,
    offer: Offer,
    status: OfferStatus,
)
    requires
        a.wf(),
        a.offers@.contains_key(answered_id),
        a.answered(&b, answered_id, true, true, r),
        offer.sender_id@ == a.offers@[answered_id].offer.sender_id@,
        b.registered(&c, offer, status),
    ensures
        a.settings.trusted_devices@.subset_of(c.settings.trusted_devices@),
        status == OfferStatus::Accepted,
        c.status_of(offer.id@) == OfferStatus::Accepted,
        forall|i: int| 0 <= i < offer.files@.len() ==> c.may_receive(offer.id@, i),
{
}

/// Nothing of an offer from an unknown device is received before the user
/// answers: it is reported pending and none of its files may be received.
pub proof fn lemma_unknown_sender_waits(a: Inner, b: Inner, offer: Offer, status: OfferStatus)
    requires
        !a.trusts(offer.sender_id@),
        a.registered(&b, offer, status),
    ensures
        status == OfferStatus::Pending,
        b.status_of(offer.id@) == OfferStatus::Pending,
        forall|i: int| !b.may_receive(offer.id@, i),
{
}

/// The user's answer is what senders are told from then on: an accepted
/// offer's files may be received, a declined offer's files may not.
pub proof fn lemma_answer_is_reported(
    a: Inner,
    b: Inner,
    id: Seq<char>,
    accept: bool,
    trust: bool,
    r: Result<bool, String>,
)
    requires
        a.wf(),
        b.wf(),
        a.offers@.contains_key(id),
        a.answered(&b, id, accept, trust, r),
    ensures
        b.status_of(id) == if accept { OfferStatus::Accepted } else { OfferStatus::Declined },
        forall|i: int| 0 <= i < a.offers@[id].offer.files@.len() ==> b.may_receive(id, i) == accept,
        a.settings.trusted_devices@.subset_of(b.settings.trusted_devices@),
{
    assert(b.offer_views().contains_key(id));
    assert(b.offers@.contains_key(id));
    assert(b.offer_views()[id] == b.offers@[id]@);
    assert(a.offer_views()[id] == a.offers@[id]@);
}

/// The offers listed by `unanswered` are exactly those of the stored
/// entries that carry no answer.
pub proof fn lemma_unanswered_lists_entries_without_answer(s: Seq<PendingOffer>, o: OfferView)
    ensures
        unanswered(s).contains(o) <==> exists|j: int| 0 <= j < s.len() && s[j].accepted is None && #[trigger] s[j].offer@ == o,
    decreases s.len(),
{
    if s.len() > 0 {
        let t = s.drop_last();
        lemma_unanswered_lists_entries_without_answer(t, o);
        if exists|j: int| 0 <= j < t.len() && t[j].accepted is None && #[trigger] t[j].offer@ == o {
            let j = choose|j: int| 0 <= j < t.len() && t[j].accepted is None && #[trigger] t[j].offer@ == o;
            assert(s[j] == t[j]);
        }
        if exists|j: int| 0 <= j < s.len() && s[j].accepted is None && #[trigger] s[j].offer@ == o {
            let j = choose|j: int| 0 <= j < s.len() && s[j].accepted is None && #[trigger] s[j].offer@ == o;
            if j < t.len() {
                assert(t[j] == s[j]);
            }
        }
        if s.last().accepted is None {
            let u = unanswered(t);
            assert(unanswered(s) == u.push(s.last().offer@));
            if u.push(s.last().offer@).contains(o) {
                let k = choose|k: int| 0 <= k < u.push(s.last().offer@).len() && u.push(s.last().offer@)[k] == o;
                if k < u.len() {
                    assert(u[k] == o);
                }
            }
            if u.contains(o) {
                let k = choose|k: int| 0 <= k < u.len() && u[k] == o;
                assert(u.push(s.last().offer@)[k] == o);
            }
            assert(u.push(s.last().offer@)[u.len() as int] == s.last().offer@);
        }
    }
}

/// What the user interface lists as incoming is exactly the offers waiting
/// for an answer: an offer is shown when it is stored under its id without
/// an answer, and an offer already accepted or declined is never shown.
pub proof fn lemma_snapshot_lists_waiting_offers(inner: Inner, o: OfferView)
    requires
        inner.wf(),
    ensures
        unanswered(inner.offers.value_seq()).contains(o) <==> inner.waits_for_answer(o),
        inner.offers@.contains_key(o.id) && inner.offers@[o.id].accepted is Some
            ==> !unanswered(inner.offers.value_seq()).contains(o),
{
    let vs = inner.offers.value_seq();
    inner.offers.lemma_entries();
    lemma_unanswered_lists_entries_without_answer(vs, o);
    if exists|j: int| 0 <= j < vs.len() && vs[j].accepted is None && #[trigger] vs[j].offer@ == o {
        let j = choose|j: int| 0 <= j < vs.len() && vs[j].accepted is None && #[trigger] vs[j].offer@ == o;
        let k = inner.offers.key_seq()[j];
        assert(inner.offers@.contains_key(k) && inner.offers@[k] == vs[j]);
        assert(inner.offers@[k].offer.id@ == k);
    }
    if inner.waits_for_answer(o) {
        assert(inner.offers.key_seq().contains(o.id));
        let j = choose|j: int| 0 <= j < inner.offers.key_seq().len() && inner.offers.key_seq()[j] == o.id;
        assert(inner.offers@[inner.offers.key_seq()[j]] == vs[j]);
        assert(vs[j].offer@ == o);
    }
}

/// Only accepting with "trust" makes a sender trusted: a decline, or an
/// acceptance without trust, leaves the trusted devices as they were and
/// reports `Ok(false)`; accepting with trust adds exactly the sender and
/// reports `Ok(true)`.
pub proof fn lemma_trust_needs_accept_and_trust(
    a: Inner,
    b: Inner,
    id: Seq<char>,
    accept: bool,
    trust: bool,
    r: Result<bool, String>,
)
    requires
        a.offers@.contains_key(id),
        a.answered(&b, id, accept, trust, r),
    ensures
        !(accept && trust) ==> r == Ok::<bool, String>(false) && b.settings.trusted_devices@
            == a.settings.trusted_devices@,
        accept && trust ==> r == Ok::<bool, String>(true) && b.settings.trusted_devices@
            == a.settings.trusted_devices@.insert(a.offers@[id].offer.sender_id@),
{
}

/// A declined sender is asked again: after the user declines an offer from
/// a sender that was not trusted, that sender's next offer waits for an
/// answer.
pub proof fn lemma_declined_sender_is_asked_again(
    a: Inner,
    b: Inner,
    c: Inner,
    id: Seq<char>,
    trust: bool,
    r: Result<bool, String>,
    offer: Offer,
    status: OfferStatus,
)
    requires
        a.offers@.contains_key(id),
        !a.trusts(a.offers@[id].offer.sender_id@),
        a.answered(&b, id, false, trust, r),
        offer.sender_id@ == a.offers@[id].offer.sender_id@,
        b.registered(&c, offer, status),
    ensures
        r == Ok::<bool, String>(false),
        status == OfferStatus::Pending,
        c.status_of(offer.id@) == OfferStatus::Pending,
{
}

} // verus!
