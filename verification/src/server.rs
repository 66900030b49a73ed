//! The receiving side of the protocol: which request goes where, and what
//! each request is answered.

use crate::models::Offer;
use crate::state::{status_text, Inner, OfferStatus};
use crate::text::{after_last, decimal, last_index_of, slice_chars, starts_with};
use crate::wire::{json_field, json_object, json_status};
use vstd::prelude::*;
use vstd::string::*;

verus! {

/// The request methods the server tells apart.
#[derive(PartialEq, Eq, Structural, Clone, Copy, Debug)]
pub enum HttpMethod {
    Get,
    Post,
    Other,
}

/// Where a request is handled.
pub enum Route {
    /// `POST /v1/offers`: a sender offers a transfer.
    ReceiveOffer,
    /// `GET /v1/offers/{id}`: a sender asks whether its offer was accepted.
    OfferStatus(String),
    /// `POST /v1/files/{id}/{index}`: a sender uploads one file.
    ReceiveFile(String, String),
    NotFound,
}

pub enum RouteView {
    ReceiveOffer,
    OfferStatus(Seq<char>),
    ReceiveFile(Seq<char>, Seq<char>),
    NotFound,
}

impl View for Route {
    type V = RouteView;

    open spec fn view(&self) -> RouteView {
        match self {
            Route::ReceiveOffer => RouteView::ReceiveOffer,
            Route::OfferStatus(id) => RouteView::OfferStatus(id@),
            Route::ReceiveFile(id, index) => RouteView::ReceiveFile(id@, index@),
            Route::NotFound => RouteView::NotFound,
        }
    }
}

/// How many `/` begin `s`.
pub open spec fn leading_slashes(s: Seq<char>) -> nat
    decreases s.len(),
{
    if s.len() > 0 && s[0] == '/' {
        1 + leading_slashes(s.drop_first())
    } else {
        0
    }
}

/// How many `/` end `s`.
pub open spec fn trailing_slashes(s: Seq<char>) -> nat
    decreases s.len(),
{
    if s.len() > 0 && s.last() == '/' {
        1 + trailing_slashes(s.drop_last())
    } else {
        0
    }
}

/// `s` without its leading and trailing `/`, as `str::trim_matches('/')`.
pub open spec fn trim_slashes(s: Seq<char>) -> Seq<char> {
    if leading_slashes(s) == s.len() {
        Seq::empty()
    } else {
        s.subrange(leading_slashes(s) as int, s.len() - trailing_slashes(s))
    }
}

/// Where a request for `url` with method `m` is handled: the URL's path,
/// trimmed of `/` at both ends and split at `/`, must be `v1/offers` for a
/// POST, `v1/offers/{id}` for a GET, or `v1/files/{id}/{index}` for a POST.
pub open spec fn route_of(m: HttpMethod, url: Seq<char>) -> RouteView {
    let t = trim_slashes(url);
    let status_rest = t.skip(10);
    let files_rest = t.skip(9);
    let k = last_index_of(files_rest, '/');
    if m == HttpMethod::Post && t == "v1/offers"@ {
        RouteView::ReceiveOffer
    } else if m == HttpMethod::Get && t.len() >= 10 && t.take(10) == "v1/offers/"@ && !status_rest.contains('/') {
        RouteView::OfferStatus(status_rest)
    } else if m == HttpMethod::Post && t.len() >= 9 && t.take(9) == "v1/files/"@ && k >= 0
        && !files_rest.take(k).contains('/') {
        RouteView::ReceiveFile(files_rest.take(k), files_rest.skip(k + 1))
    } else {
        RouteView::NotFound
    }
}

proof fn lemma_leading_step(s: Seq<char>, i: int)
    requires
        0 <= i < s.len(),
        s[i] == '/',
    ensures
        leading_slashes(s.skip(i)) == 1 + leading_slashes(s.skip(i + 1)),
{
    assert(s.skip(i).drop_first() =~= s.skip(i + 1));
}

proof fn lemma_trailing_step(s: Seq<char>, j: int)
    requires
        0 < j <= s.len(),
        s[j - 1] == '/',
    ensures
        trailing_slashes(s.take(j)) == 1 + trailing_slashes(s.take(j - 1)),
{
    assert(s.take(j).drop_last() =~= s.take(j - 1));
}

proof fn lemma_trailing_bound(s: Seq<char>)
    ensures
        trailing_slashes(s) <= s.len(),
        forall|i: int| s.len() - trailing_slashes(s) <= i < s.len() ==> s[i] == '/',
    decreases s.len(),
{
    if s.len() > 0 && s.last() == '/' {
        lemma_trailing_bound(s.drop_last());
        assert forall|i: int| s.len() - trailing_slashes(s) <= i < s.len() implies s[i] == '/' by {
            if i < s.len() - 1 {
                assert(s[i] == s.drop_last()[i]);
            }
        }
    }
}

proof fn lemma_leading_bound(s: Seq<char>)
    ensures
        leading_slashes(s) <= s.len(),
        forall|i: int| 0 <= i < leading_slashes(s) ==> s[i] == '/',
        leading_slashes(s) < s.len() ==> s[leading_slashes(s) as int] != '/',
    decreases s.len(),
{
    if s.len() > 0 && s[0] == '/' {
        lemma_leading_bound(s.drop_first());
        assert forall|i: int| 0 <= i < leading_slashes(s) implies s[i] == '/' by {
            if i > 0 {
                assert(s[i] == s.drop_first()[i - 1]);
            }
        }
        if leading_slashes(s) < s.len() {
            assert(s[leading_slashes(s) as int] == s.drop_first()[leading_slashes(s.drop_first()) as int]);
        }
    }
}

/// `url` without its leading and trailing `/`.
pub fn trim_slashes_of(url: &str) -> (r: String)
    ensures
        r@ == trim_slashes(url@),
{
    let n = url.unicode_len();
    let mut a: usize = 0;
    assert(url@.skip(0) =~= url@);
    while a < n && url.get_char(a) == '/'
        invariant
            a <= n,
            n == url@.len(),
            leading_slashes(url@) == a + leading_slashes(url@.skip(a as int)),
        decreases n - a,
    {
        proof {
            lemma_leading_step(url@, a as int);
        }
        a = a + 1;
    }
    assert(leading_slashes(url@.skip(a as int)) == 0) by {
        if a < n {
            assert(url@.skip(a as int)[0] == url@[a as int]);
        }
    }
    if a == n {
        return String::new();
    }
    let mut b: usize = n;
    assert(url@.take(n as int) =~= url@);
    while b > a && url.get_char(b - 1) == '/'
        invariant
            a < n,
            a < b <= n,
            n == url@.len(),
            url@[a as int] != '/',
            trailing_slashes(url@) == (n - b) + trailing_slashes(url@.take(b as int)),
        decreases b,
    {
        proof {
            lemma_trailing_step(url@, b as int);
        }
        b = b - 1;
    }
    proof {
        lemma_leading_bound(url@);
        if b == a {
            assert(url@[a as int] != '/');
        }
        assert(b > a);
        assert(trailing_slashes(url@.take(b as int)) == 0) by {
            assert(url@.take(b as int).last() == url@[b - 1]);
        }
    }
    slice_chars(url, a, b)
}

/// Decides where a request is handled.
pub fn route(method: HttpMethod, url: &str) -> (r: Route)
    ensures
        r@ == route_of(method, url@),
{
    let t = trim_slashes_of(url);
    let n = t.unicode_len();
    proof {
        reveal_strlit("v1/offers");
        reveal_strlit("v1/offers/");
        reveal_strlit("v1/files/");
    }
    let ts = t.as_str();
    if method == HttpMethod::Post && crate::text::same_text(ts, "v1/offers") {
        return Route::ReceiveOffer;
    }
    if method == HttpMethod::Get && starts_with(ts, "v1/offers/") {
        let k = after_last(ts, n, '/');
        proof {
            crate::text::lemma_last_index_of_bounds(t@, '/');
            assert(t@.take(n as int) =~= t@);
            assert(t@[9] == '/');
        }
        if k == 10 {
            let id = slice_chars(ts, 10, n);
            proof {
                assert(id@ =~= t@.skip(10));
                assert forall|i: int| 0 <= i < id@.len() implies id@[i] != '/' by {
                    assert(id@[i] == t@[10 + i]);
                }
            }
            return Route::OfferStatus(id);
        }
        proof {
            let j = last_index_of(t@, '/');
            assert(j >= 10);
            assert(t@.skip(10)[j - 10] == '/');
            assert(t@.skip(10).contains('/'));
        }
        return Route::NotFound;
    }
    if method == HttpMethod::Post && starts_with(ts, "v1/files/") {
        let k = after_last(ts, n, '/');
        proof {
            crate::text::lemma_last_index_of_bounds(t@, '/');
            assert(t@.take(n as int) =~= t@);
            assert(t@[8] == '/');
        }
        let ghost rest = t@.skip(9);
        proof {
            crate::text::lemma_last_index_of_bounds(rest, '/');
            let j = last_index_of(t@, '/');
            let jr = last_index_of(rest, '/');
            if j >= 9 {
                assert(rest[j - 9] == '/');
                assert(jr >= j - 9);
                assert(t@[jr + 9] == rest[jr]);
                assert(jr + 9 <= j);
            } else {
                assert(jr < 0) by {
                    if jr >= 0 {
                        assert(t@[jr + 9] == rest[jr]);
                    }
                }
            }
        }
        if k >= 10 {
            let sep = k - 1;
            let before = after_last(ts, sep, '/');
            proof {
                crate::text::lemma_last_index_of_bounds(t@.take(sep as int), '/');
            }
            if before <= 9 {
                let id = slice_chars(ts, 9, sep);
                let index = slice_chars(ts, k, n);
                proof {
                    assert(last_index_of(rest, '/') == sep - 9);
                    assert(id@ =~= rest.take(sep - 9));
                    assert(index@ =~= rest.skip(sep - 9 + 1));
                    assert forall|i: int| 0 <= i < id@.len() implies id@[i] != '/' by {
                        assert(id@[i] == t@.take(sep as int)[9 + i]);
                    }
                }
                return Route::ReceiveFile(id, index);
            }
            proof {
                let jb = last_index_of(t@.take(sep as int), '/');
                assert(jb >= 9);
                assert(last_index_of(rest, '/') == sep - 9);
                assert(rest.take(sep - 9)[jb - 9] == '/');
                assert(rest.take(sep - 9).contains('/'));
            }
            return Route::NotFound;
        }
        return Route::NotFound;
    }
    proof {
        if method == HttpMethod::Get {
            assert(!(t@.len() >= 10 && t@.take(10) == "v1/offers/"@));
        }
    }
    Route::NotFound
}


/// An answer to a request: a status code and a JSON body.
pub struct Reply {
    pub code: u16,
    pub body: Vec<u8>,
}

/// `r` has status `code` and the body `{key: value}`.
pub open spec fn reply_is(r: Reply, code: u16, key: Seq<char>, value: Seq<char>) -> bool {
    r.code == code && r.body@ == json_object(key, value)
}

fn reply(code: u16, key: &str, value: &str) -> (r: Reply)
    ensures
        reply_is(r, code, key@, value@),
        key@ == "status"@ ==> json_status(r.body@) == Some(Some(value@)),
{
    Reply { code, body: json_field(key, value) }
}

/// The answer to a request the server does not handle.
pub fn not_found() -> (r: Reply)
    ensures
        reply_is(r, 404, "error"@, "not found"@),
{
    reply(404, "error", "not found")
}

/// Handles an offer: a body that could not be read or parsed is answered
/// 400 with the reason and changes nothing; a parsed offer is stored and
/// answered 202 with whether it was accepted on arrival.
pub fn receive_offer(inner: &mut Inner, parsed: Result<Offer, String>) -> (r: Reply)
    requires
        old(inner).wf(),
    ensures
        final(inner).wf(),
        match parsed {
            Ok(o) => {
                let status = if old(inner).trusts(o.sender_id@) {
                    OfferStatus::Accepted
                } else {
                    OfferStatus::Pending
                };
                old(inner).registered(final(inner), o, status) && reply_is(r, 202, "status"@, status_text(status))
            },
            Err(e) => *final(inner) == *old(inner) && reply_is(r, 400, "error"@, e@),
        },
{
    match parsed {
        Ok(offer) => {
            let status = inner.register_offer(offer);
            reply(202, "status", status.as_text())
        },
        Err(error) => reply(400, "error", error.as_str()),
    }
}

/// Tells a polling sender where its offer stands.
pub fn report_offer_status(inner: &Inner, offer_id: &str) -> (r: Reply)
    requires
        inner.wf(),
    ensures
        reply_is(r, 200, "status"@, status_text(inner.status_of(offer_id@))),
        json_status(r.body@) == Some(Some(status_text(inner.status_of(offer_id@)))),
{
    let status = inner.offer_status(offer_id);
    reply(200, "status", status.as_text())
}

/// The answer to a file upload that may not be received.
pub fn transfer_not_accepted() -> (r: Reply)
    ensures
        reply_is(r, 403, "error"@, "transfer was not accepted"@),
{
    reply(403, "error", "transfer was not accepted")
}

/// The answer to a file that was stored; `saved` says where.
pub fn file_saved(saved: &str) -> (r: Reply)
    ensures
        reply_is(r, 201, "saved"@, saved@),
{
    reply(201, "saved", saved)
}

/// The answer to a file that could not be stored.
pub fn file_failed(error: &str) -> (r: Reply)
    ensures
        reply_is(r, 500, "error"@, error@),
{
    reply(500, "error", error)
}


proof fn lemma_trim_one_leading(s: Seq<char>)
    requires
        s.len() >= 2,
        s[0] == '/',
        s[1] != '/',
        s.last() != '/',
    ensures
        trim_slashes(s) == s.skip(1),
{
    assert(s.drop_first()[0] == s[1]);
    assert(leading_slashes(s.drop_first()) == 0);
    assert(leading_slashes(s) == 1);
    assert(trailing_slashes(s) == 0);
    assert(s.subrange(1, s.len() as int) =~= s.skip(1));
}

/// The requests a sender makes reach the handlers meant for them: an offer
/// reaches `ReceiveOffer`, a status question about an offer id reaches
/// `OfferStatus` for that id, and an upload of file `index` reaches
/// `ReceiveFile` for that id with an index text that reads back as `index`.
pub proof fn lemma_sender_requests_are_routed(id: Seq<char>, index: usize)
    requires
        !id.contains('/'),
    ensures
        route_of(HttpMethod::Post, crate::transfer::offers_path()) == RouteView::ReceiveOffer,
        id.len() > 0 ==> route_of(HttpMethod::Get, crate::transfer::status_path(id))
            == RouteView::OfferStatus(id),
        route_of(HttpMethod::Post, crate::transfer::file_path(id, index as nat))
            == RouteView::ReceiveFile(id, decimal(index as nat)),
        crate::text::parse_usize(decimal(index as nat)) == Some(index),
{
    reveal_strlit("/v1/offers");
    reveal_strlit("v1/offers");
    reveal_strlit("/v1/offers/");
    reveal_strlit("v1/offers/");
    reveal_strlit("/v1/files/");
    reveal_strlit("v1/files/");
    reveal_strlit("/");
    let p = crate::transfer::offers_path();
    lemma_trim_one_leading(p);
    assert(trim_slashes(p) =~= "v1/offers"@);
    if id.len() > 0 {
        let q = crate::transfer::status_path(id);
        assert(q.last() == id.last());
        assert(id.contains(id.last()) ) by {
            assert(id[id.len() - 1] == id.last());
        }
        lemma_trim_one_leading(q);
        let t = trim_slashes(q);
        assert(t =~= "v1/offers/"@ + id);
        assert(t.take(10) =~= "v1/offers/"@);
        assert(t.skip(10) =~= id);
        assert(t != "v1/offers"@) by {
            assert(t.len() != "v1/offers"@.len());
        }
    }
    crate::text::lemma_decimal_digits(index as nat);
    crate::text::lemma_parse_decimal(index);
    let d = decimal(index as nat);
    let f = crate::transfer::file_path(id, index as nat);
    assert(f.last() == d.last());
    assert(crate::text::is_digit(d.last())) by {
        assert(d[d.len() - 1] == d.last());
    }
    lemma_trim_one_leading(f);
    let t = trim_slashes(f);
    assert(t =~= "v1/files/"@ + id + "/"@ + d);
    assert(t.take(9) =~= "v1/files/"@);
    let rest = t.skip(9);
    assert(rest =~= id + seq!['/'] + d);
    let k = last_index_of(rest, '/');
    crate::text::lemma_last_index_of_bounds(rest, '/');
    assert(rest[id.len() as int] == '/');
    assert(k == id.len()) by {
        if k > id.len() {
            assert(rest[k] == d[k - id.len() - 1]);
            assert(crate::text::is_digit(d[k - id.len() - 1]));
        }
    }
    assert(rest.take(k) =~= id);
    assert(rest.skip(k + 1) =~= d);
    assert(t != "v1/offers"@) by {
        assert(t[3] == 'f');
        assert("v1/offers"@[3] == 'o');
    }
}

} // verus!
