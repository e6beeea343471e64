//! Requests that another proxy forwards for a decision.
use crate::engine::Core;
use crate::error::{Error, Failure, agrees_with, fails, status_of};
use crate::headers::{Header, HeaderModel, all_values, has_header, header_value_ok, header_value_text, header_values, inserted, one, one_value, opt_texts, removed};
use crate::outpost::{ProxyIdentity, ProxyIdentityModel, login_url_check, proxy_answer, proxy_client, target_check};
use crate::outside::{parse_url, url_of, url_with_pairs};
use crate::rules::{Rules, RulesModel};
use crate::store::{Tx, TxModel};
use crate::table::{dup_list, views};
use crate::text::{ascii_alphanumeric, byte_count, byte_len, chars_of, concat, concat3, control, has_char, has_control, has_prefix, has_whitespace, is_alphanumeric, lower, opt_text, same, same_ignoring_case, some_control, some_whitespace, starts_with, whitespace};
use vstd::prelude::*;
use vstd::string::*;

verus! {

pub open spec fn host_char(c: char) -> bool {
    ascii_alphanumeric(c) || c == '.' || c == '-' || c == ':' || c == '[' || c == ']'
}

/// A host, perhaps with a port.
pub open spec fn plain_authority(h: Seq<char>) -> bool {
    h.len() > 0 && byte_count(h) <= 255 && forall|i: int| 0 <= i < h.len() ==> host_char(#[trigger] h[i])
}

/// A path and query that cannot leave the host.
pub open spec fn plain_uri(u: Seq<char>) -> bool {
    has_prefix(u, "/"@) && !has_prefix(u, "//"@) && byte_count(u) <= 8192 && !some_control(u)
        && !some_whitespace(u) && !u.contains('#') && !u.contains('\\')
}

fn is_plain_authority(h: &str) -> (r: bool)
    ensures
        r == plain_authority(h@),
{
    let v = chars_of(h);
    if v.len() == 0 || byte_len(h) > 255 {
        return false;
    }
    let mut i: usize = 0;
    while i < v.len()
        invariant
            i <= v.len(),
            v@ == h@,
            forall|j: int| 0 <= j < i ==> host_char(#[trigger] h@[j]),
        decreases v.len() - i,
    {
        let c = v[i];
        if !(is_alphanumeric(c) || c == '.' || c == '-' || c == ':' || c == '[' || c == ']') {
            assert(!host_char(h@[i as int]));
            return false;
        }
        i = i + 1;
    }
    true
}

/// The scheme of a forwarded protocol, and whether it is a websocket's.
pub open spec fn forwarded_scheme(p: Seq<char>) -> Option<(Seq<char>, bool)> {
    if p == "http"@ {
        Some(("http"@, false))
    } else if p == "https"@ {
        Some(("https"@, false))
    } else if p == "ws"@ {
        Some(("http"@, true))
    } else if p == "wss"@ {
        Some(("https"@, true))
    } else {
        None
    }
}

/// The URL that a forwarded request is for, and whether it opens a websocket.
pub open spec fn forwarded_url(h: Seq<HeaderModel>) -> Result<(Seq<char>, bool), Failure> {
    match one_value(h, "x-forwarded-proto"@) {
        Err(f) => Err(f),
        Ok(p) => match forwarded_scheme(p) {
            None => Err(Failure::Bad("Unsupported forwarded protocol"@)),
            Some((scheme, websocket)) => match one_value(h, "x-forwarded-host"@) {
                Err(f) => Err(f),
                Ok(host) => match one_value(h, "x-forwarded-uri"@) {
                    Err(f) => Err(f),
                    Ok(uri) => if !plain_authority(host) {
                        Err(Failure::Bad("Invalid forwarded host"@))
                    } else if !plain_uri(uri) {
                        Err(Failure::Bad("Invalid forwarded URI"@))
                    } else {
                        let target = scheme + "://"@ + host + uri;
                        match (url_of(target), url_of(scheme + "://"@ + host + "/"@)) {
                            (Some(a), Some(b)) => if a.origin != b.origin {
                                Err(Failure::Bad("Forwarded URI must not change the origin"@))
                            } else {
                                Ok((target, websocket))
                            },
                            _ => Err(Failure::Bad("Invalid forwarded URL"@)),
                        }
                    },
                },
            },
        },
    }
}

pub fn forwarded_target(headers: &Vec<Header>) -> (r: Result<(String, bool), Error>)
    ensures
        match forwarded_url(views(headers@)) {
            Ok(p) => r is Ok && (r->Ok_0).0@ == p.0 && (r->Ok_0).1 == p.1,
            Err(f) => fails(r, f),
        },
{
    let p = match one(headers, "x-forwarded-proto") {
        Err(e) => return Err(e),
        Ok(p) => p,
    };
    let (scheme, websocket) = if same(p.as_str(), "http") {
        ("http", false)
    } else if same(p.as_str(), "https") {
        ("https", false)
    } else if same(p.as_str(), "ws") {
        ("http", true)
    } else if same(p.as_str(), "wss") {
        ("https", true)
    } else {
        return Err(Error::bad("Unsupported forwarded protocol"));
    };
    let host = match one(headers, "x-forwarded-host") {
        Err(e) => return Err(e),
        Ok(h) => h,
    };
    let uri = match one(headers, "x-forwarded-uri") {
        Err(e) => return Err(e),
        Ok(u) => u,
    };
    if !is_plain_authority(host.as_str()) {
        return Err(Error::bad("Invalid forwarded host"));
    }
    let u = uri.as_str();
    if !starts_with(u, "/") || starts_with(u, "//") || byte_len(u) > 8192 || has_control(u)
        || has_whitespace(u) || has_char(u, '#') || has_char(u, '\\') {
        return Err(Error::bad("Invalid forwarded URI"));
    }
    let base = concat3(scheme, "://", host.as_str());
    let target = concat(base.as_str(), u);
    let root = concat(base.as_str(), "/");
    let a = match parse_url(target.as_str()) {
        None => return Err(Error::bad("Invalid forwarded URL")),
        Some(a) => a,
    };
    let b = match parse_url(root.as_str()) {
        None => return Err(Error::bad("Invalid forwarded URL")),
        Some(b) => b,
    };
    if !same(a.origin.as_str(), b.origin.as_str()) {
        return Err(Error::bad("Forwarded URI must not change the origin"));
    }
    Ok((target, websocket))
}

/// The header is there once, with this value.
pub open spec fn says(h: Seq<HeaderModel>, name: Seq<char>, value: Seq<char>) -> bool {
    one_value(h, name) == Ok::<Seq<char>, Failure>(value)
}

fn header_says(headers: &Vec<Header>, name: &str, value: &str) -> (r: bool)
    ensures
        r == says(views(headers@), name@, value@),
{
    match one(headers, name) {
        Ok(v) => same(v.as_str(), value),
        Err(_) => false,
    }
}

pub open spec fn carries(h: Seq<HeaderModel>, name: Seq<char>) -> bool {
    header_values(h, name).len() > 0
}

/// The method of the forwarded request, without regard to case.
pub open spec fn method_is(h: Seq<HeaderModel>, method: Seq<char>) -> bool {
    one_value(h, "x-forwarded-method"@) matches Ok(m) && lower(m) == lower(method)
}

fn forwarded_method(headers: &Vec<Header>, method: &str) -> (r: bool)
    ensures
        r == method_is(views(headers@), method@),
{
    match one(headers, "x-forwarded-method") {
        Ok(m) => same_ignoring_case(m.as_str(), method),
        Err(_) => false,
    }
}

pub open spec fn opens_websocket(h: Seq<HeaderModel>, ws: bool) -> bool {
    ws || carries(h, "sec-websocket-key"@)
}

/// A request that may change something, from another origin or site.
pub open spec fn foreign_write(h: Seq<HeaderModel>, origin: Seq<char>) -> bool {
    !(method_is(h, "GET"@) || method_is(h, "HEAD"@) || method_is(h, "OPTIONS"@)) && ((carries(
        h,
        "origin"@,
    ) && !says(h, "origin"@, origin)) || (carries(h, "sec-fetch-site"@) && !(says(
        h,
        "sec-fetch-site"@,
        "same-origin"@,
    ) || says(h, "sec-fetch-site"@, "none"@))))
}

/// The browser navigates, so it can be sent to a login page.
pub open spec fn navigates(h: Seq<HeaderModel>, websocket: bool) -> bool {
    (method_is(h, "GET"@) || method_is(h, "HEAD"@)) && !websocket && (!carries(h, "sec-fetch-mode"@)
        || says(h, "sec-fetch-mode"@, "navigate"@))
}

/// The headers of an accepted request: the application's own cookies, if it has some, stand where
/// the browser's stood.
pub open spec fn forwarded_headers(h: Seq<HeaderModel>) -> Seq<HeaderModel> {
    let v = header_values(h, "x-riauth-app-cookie"@);
    let rest = removed(h, "x-riauth-app-cookie"@);
    if v.len() > 0 && (v[0] matches Some(c) && c.len() > 0) {
        inserted(rest, "cookie"@, v[0]->0)
    } else {
        rest
    }
}

/// The decision on a forwarded request.
pub enum Forward {
    /// It goes on with these headers; the session ends at this time.
    Allow(u64, Vec<Header>),
    /// The browser is sent to this page, where it navigates.
    Login(String, bool),
}

/// What a [`Forward`] holds.
pub enum ForwardModel {
    Allow(u64, Seq<HeaderModel>),
    Login(Seq<char>, bool),
}

impl View for Forward {
    type V = ForwardModel;

    open spec fn view(&self) -> ForwardModel {
        match *self {
            Forward::Allow(t, h) => ForwardModel::Allow(t, views(h@)),
            Forward::Login(l, n) => ForwardModel::Login(l@, n),
        }
    }
}

/// Whether a forwarded request is looked at: its URL belongs to the client, and it does not come
/// from elsewhere. Then its URL, and whether it opens a websocket.
pub open spec fn forward_check(
    t: TxModel,
    id: Seq<char>,
    h: Seq<HeaderModel>,
    rules: RulesModel,
) -> Result<(Seq<char>, bool), Failure> {
    match forwarded_url(h) {
        Err(f) => Err(f),
        Ok((target, ws)) => if !header_value_text(target) {
            Err(Failure::Bad("Invalid forwarded URL"@))
        } else {
            match proxy_client(t, id, rules) {
                Err(f) => Err(f),
                Ok((_, s)) => match target_check(s, target) {
                    Err(f) => Err(f),
                    Ok(_) => {
                        let origin = (url_of(target)->0).origin;
                        let websocket = opens_websocket(h, ws);
                        if (websocket && !says(h, "origin"@, origin)) || foreign_write(h, origin) {
                            Err(Failure::Forbidden)
                        } else {
                            Ok((target, websocket))
                        }
                    },
                },
            }
        },
    }
}

/// The decision on a forwarded request.
pub open spec fn forward_decision(
    t: TxModel,
    id: Seq<char>,
    h: Seq<HeaderModel>,
    fingerprint: Seq<char>,
    who: ProxyIdentityModel,
    rules: RulesModel,
) -> Result<ForwardModel, Failure> {
    match forward_check(t, id, h, rules) {
        Err(f) => Err(f),
        Ok((target, websocket)) => {
            let g = inserted(h, "x-original-url"@, target);
            match proxy_answer(t, id, g, fingerprint, who, rules) {
                Ok((at, out)) => Ok(ForwardModel::Allow(at, forwarded_headers(out))),
                Err(f) => if status_of(f) != 401 {
                    Err(f)
                } else {
                    match login_url_check(t, id, g, rules) {
                        Err(e) => Err(e),
                        Ok((base, rd)) => match url_with_pairs(base, seq![("rd"@, rd)]) {
                            None => Err(Failure::Internal("Invalid proxy origin"@)),
                            Some(u) => Ok(ForwardModel::Login(u, navigates(h, websocket))),
                        },
                    }
                },
            }
        },
    }
}

fn check_forward(tx: &Tx, id: &str, headers: &Vec<Header>, rules: &Rules) -> (r: Result<
    (String, bool),
    Error,
>)
    ensures
        match forward_check(tx@, id@, views(headers@), rules@) {
            Ok(p) => r is Ok && (r->Ok_0).0@ == p.0 && (r->Ok_0).1 == p.1,
            Err(f) => fails(r, f),
        },
{
    let (target, ws) = match forwarded_target(headers) {
        Err(e) => return Err(e),
        Ok(p) => p,
    };
    if !header_value_ok(target.as_str()) {
        return Err(Error::bad("Invalid forwarded URL"));
    }
    let (_, settings) = match crate::outpost::client(tx, id, rules) {
        Err(e) => return Err(e),
        Ok(p) => p,
    };
    if let Err(e) = settings.target(target.as_str()) {
        return Err(e);
    }
    let origin = match parse_url(target.as_str()) {
        None => return Err(Error::bad("Invalid forwarded URL")),
        Some(u) => u.origin,
    };
    let websocket = ws || has_header(headers, "sec-websocket-key");
    let own = header_says(headers, "origin", origin.as_str());
    if websocket && !own {
        return Err(Error::Forbidden);
    }
    let safe = forwarded_method(headers, "GET") || forwarded_method(headers, "HEAD")
        || forwarded_method(headers, "OPTIONS");
    let site = has_header(headers, "sec-fetch-site") && !(header_says(
        headers,
        "sec-fetch-site",
        "same-origin",
    ) || header_says(headers, "sec-fetch-site", "none"));
    if !safe && ((has_header(headers, "origin") && !own) || site) {
        return Err(Error::Forbidden);
    }
    Ok((target, websocket))
}

fn make_forwarded(out: Vec<Header>) -> (r: Vec<Header>)
    ensures
        views(r@) == forwarded_headers(views(out@)),
{
    let values = all_values(&out, "x-riauth-app-cookie");
    let mut h = out;
    crate::headers::remove(&mut h, "x-riauth-app-cookie");
    if values.len() > 0 {
        assert(opt_texts(values@)[0] == opt_text(values[0]));
        if let Some(c) = &values[0] {
            if !c.as_str().is_empty() {
                crate::headers::insert(&mut h, "cookie", c.as_str());
            }
        }
    }
    h
}

impl Core {
    /// Decides on a request that another proxy forwards.
    pub fn outpost_forward(
        &self,
        tx: &Tx,
        id: &str,
        peer: &str,
        headers: &Vec<Header>,
        fingerprint: &str,
        who: &ProxyIdentity,
        rules: &Rules,
    ) -> (r: Result<Forward, Error>)
        ensures
            if !self@.config.trusted_proxies.contains(peer@) {
                fails(r, Failure::Forbidden)
            } else {
                agrees_with(
                    r,
                    forward_decision(tx@, id@, views(headers@), fingerprint@, who@, rules@),
                )
            },
    {
        if let Err(e) = self.proxy_peer(peer) {
            return Err(e);
        }
        let (target, websocket) = match check_forward(tx, id, headers, rules) {
            Err(e) => return Err(e),
            Ok(p) => p,
        };
        let mut forwarded = dup_list(headers);
        crate::headers::insert(&mut forwarded, "x-original-url", target.as_str());
        match self.outpost_auth(tx, id, peer, &forwarded, fingerprint, who, rules) {
            Ok((at, out)) => Ok(Forward::Allow(at, make_forwarded(out))),
            Err(e) => {
                if e.status() != 401 {
                    return Err(e);
                }
                match self.outpost_login_url(tx, id, peer, &forwarded, rules) {
                    Err(e) => Err(e),
                    Ok(location) => {
                        let get = forwarded_method(headers, "GET") || forwarded_method(
                            headers,
                            "HEAD",
                        );
                        let page = !has_header(headers, "sec-fetch-mode") || header_says(
                            headers,
                            "sec-fetch-mode",
                            "navigate",
                        );
                        Ok(Forward::Login(location, get && !websocket && page))
                    },
                }
            },
        }
    }
}

/// A write from another origin is refused before anybody is asked to log in.
pub proof fn foreign_writes_are_refused(
    t: TxModel,
    id: Seq<char>,
    h: Seq<HeaderModel>,
    fingerprint: Seq<char>,
    who: ProxyIdentityModel,
    rules: RulesModel,
)
    requires
        forwarded_url(h) is Ok,
        foreign_write(h, (url_of((forwarded_url(h)->Ok_0).0)->0).origin),
    ensures
        forward_decision(t, id, h, fingerprint, who, rules) is Err,
{
}

/// A request that its session covers is let through with the user's identity until the session ends; one
/// without a session is sent to log in, and comes back to where it was going.
pub proof fn requests_pass_or_are_sent_to_log_in(
    t: TxModel,
    id: Seq<char>,
    h: Seq<HeaderModel>,
    fingerprint: Seq<char>,
    who: ProxyIdentityModel,
    rules: RulesModel,
)
    requires
        forward_decision(t, id, h, fingerprint, who, rules) is Ok,
    ensures
        ({
            let target = (forwarded_url(h)->Ok_0).0;
            let g = inserted(h, "x-original-url"@, target);
            let answer = proxy_answer(t, id, g, fingerprint, who, rules);
            let s = t.clients[id].settings.proxy->0;
            match forward_decision(t, id, h, fingerprint, who, rules)->Ok_0 {
                ForwardModel::Allow(at, out) => answer is Ok && at == (answer->Ok_0).0 && at > t.now,
                ForwardModel::Login(u, _) => answer is Err && url_with_pairs(
                    s.external_origin + "/outpost/"@ + id + "/start"@,
                    seq![("rd"@, (url_of((one_value(g, "x-original-url"@)->Ok_0))->0).text)],
                ) == Some(u),
            }
        }),
        (url_of((forwarded_url(h)->Ok_0).0)->0).origin == (
        t.clients[id].settings.proxy->0).external_origin || ((t.clients[id].settings.proxy->0).domain
            matches Some(d) && d.application_origins.contains(
            (url_of((forwarded_url(h)->Ok_0).0)->0).origin,
        )),
{
}

/// The address that was asked for is the scheme, the host and the path that the proxy forwards.
pub proof fn forwarded_addresses_are_put_together(
    h: Seq<HeaderModel>,
    host: Seq<char>,
    uri: Seq<char>,
)
    requires
        one_value(h, "x-forwarded-host"@) == Ok::<Seq<char>, Failure>(host),
        one_value(h, "x-forwarded-uri"@) == Ok::<Seq<char>, Failure>(uri),
        forwarded_url(h) is Ok,
    ensures
        one_value(h, "x-forwarded-proto"@) == Ok::<Seq<char>, Failure>("https"@) ==> forwarded_url(h)
            == Ok::<(Seq<char>, bool), Failure>(("https"@ + "://"@ + host + uri, false)),
        one_value(h, "x-forwarded-proto"@) == Ok::<Seq<char>, Failure>("wss"@) ==> forwarded_url(h)
            == Ok::<(Seq<char>, bool), Failure>(("https"@ + "://"@ + host + uri, true)),
        one_value(h, "x-forwarded-proto"@) == Ok::<Seq<char>, Failure>("http"@) ==> forwarded_url(h)
            == Ok::<(Seq<char>, bool), Failure>(("http"@ + "://"@ + host + uri, false)),
        one_value(h, "x-forwarded-proto"@) == Ok::<Seq<char>, Failure>("ws"@) ==> forwarded_url(h)
            == Ok::<(Seq<char>, bool), Failure>(("http"@ + "://"@ + host + uri, true)),
{
    reveal_strlit("http");
    reveal_strlit("https");
    reveal_strlit("ws");
    reveal_strlit("wss");
    assert("http"@.len() == 4 && "https"@.len() == 5 && "ws"@.len() == 2 && "wss"@.len() == 3);
}

/// A forwarded address is taken from headers that are there once, with a plain host and path, and
/// leads to that host.
pub proof fn forwarded_addresses_keep_their_host(h: Seq<HeaderModel>)
    requires
        forwarded_url(h) is Ok,
    ensures
        ({
            let host = one_value(h, "x-forwarded-host"@)->Ok_0;
            let uri = one_value(h, "x-forwarded-uri"@)->Ok_0;
            let proto = one_value(h, "x-forwarded-proto"@)->Ok_0;
            let (target, websocket) = forwarded_url(h)->Ok_0;
            &&& one_value(h, "x-forwarded-host"@) is Ok
            &&& one_value(h, "x-forwarded-uri"@) is Ok
            &&& one_value(h, "x-forwarded-proto"@) is Ok
            &&& plain_authority(host)
            &&& plain_uri(uri)
            &&& url_of(target) is Some
            &&& target == "https://"@ + host + uri || target == "http://"@ + host + uri
        }),
{
    let host = one_value(h, "x-forwarded-host"@)->Ok_0;
    let uri = one_value(h, "x-forwarded-uri"@)->Ok_0;
    reveal_strlit("https://");
    reveal_strlit("http://");
    reveal_strlit("https");
    reveal_strlit("http");
    reveal_strlit("://");
    assert("https"@ + "://"@ =~= "https://"@);
    assert("http"@ + "://"@ =~= "http://"@);
}

/// A forwarded request is for its own application; a socket is opened from the application's origin,
/// and writes come from there.
pub proof fn forwarded_requests_are_for_their_application(
    t: TxModel,
    id: Seq<char>,
    h: Seq<HeaderModel>,
    rules: RulesModel,
)
    requires
        forward_check(t, id, h, rules) is Ok,
    ensures
        ({
            let (target, websocket) = forward_check(t, id, h, rules)->Ok_0;
            let s = t.clients[id].settings.proxy->0;
            &&& t.clients.dom().contains(id) && t.clients[id].enabled && t.clients[id].settings.proxy is Some
            &&& forwarded_url(h) is Ok && (forwarded_url(h)->Ok_0).0 == target
            &&& header_value_text(target)
            &&& url_of(target) is Some
            &&& (url_of(target)->0).origin == s.external_origin || (s.domain is Some && (
            s.domain->0).application_origins.contains((url_of(target)->0).origin))
            &&& websocket <==> opens_websocket(h, (forwarded_url(h)->Ok_0).1)
            &&& websocket ==> says(h, "origin"@, (url_of(target)->0).origin)
            &&& !foreign_write(h, (url_of(target)->0).origin)
        }),
{
}

/// A write is foreign if it names another origin, or says that it comes from another site; reads never
/// are.
pub proof fn foreign_writes_name_another_origin(h: Seq<HeaderModel>, origin: Seq<char>)
    ensures
        method_is(h, "GET"@) || method_is(h, "HEAD"@) || method_is(h, "OPTIONS"@) ==> !foreign_write(h, origin),
        !method_is(h, "GET"@) && !method_is(h, "HEAD"@) && !method_is(h, "OPTIONS"@) ==> {
            &&& header_values(h, "origin"@).len() > 0 && one_value(h, "origin"@) != Ok::<Seq<char>, Failure>(
                origin,
            ) ==> foreign_write(h, origin)
            &&& header_values(h, "origin"@).len() == 0 && header_values(h, "sec-fetch-site"@).len() == 0
                ==> !foreign_write(h, origin)
            &&& one_value(h, "origin"@) == Ok::<Seq<char>, Failure>(origin) && header_values(
                h,
                "sec-fetch-site"@,
            ).len() == 0 ==> !foreign_write(h, origin)
            &&& one_value(h, "origin"@) == Ok::<Seq<char>, Failure>(origin) && (one_value(
                h,
                "sec-fetch-site"@,
            ) == Ok::<Seq<char>, Failure>("same-origin"@) || one_value(h, "sec-fetch-site"@) == Ok::<
                Seq<char>,
                Failure,
            >("none"@)) ==> !foreign_write(h, origin)
            &&& header_values(h, "sec-fetch-site"@).len() > 0 && one_value(h, "sec-fetch-site"@) != Ok::<
                Seq<char>,
                Failure,
            >("same-origin"@) && one_value(h, "sec-fetch-site"@) != Ok::<Seq<char>, Failure>("none"@)
                ==> foreign_write(h, origin)
        },
{
}

/// A forwarded path is absolute and plain: no second slash in front, no blanks, no fragment and no
/// backslash.
pub proof fn forwarded_paths_are_plain(u: Seq<char>)
    ensures
        plain_uri(u) <==> {
            &&& u.len() > 0 && u[0] == '/'
            &&& u.len() > 1 ==> u[1] != '/'
            &&& byte_count(u) <= 8192
            &&& forall|i: int|
                0 <= i < u.len() ==> !control(#[trigger] u[i]) && !whitespace(u[i]) && u[i] != '#' && u[i]
                    != '\\'
        },
{
    lemma_slashes(u);
    lemma_plain_characters(u);
}

proof fn lemma_slashes(u: Seq<char>)
    ensures
        has_prefix(u, "/"@) <==> u.len() > 0 && u[0] == '/',
        has_prefix(u, "//"@) <==> u.len() > 1 && u[0] == '/' && u[1] == '/',
{
    reveal_strlit("/");
    reveal_strlit("//");
    if u.len() > 0 && u[0] == '/' {
        assert(u.take(1) =~= "/"@);
    }
    if has_prefix(u, "/"@) {
        assert(u.take(1)[0] == u[0]);
    }
    if u.len() > 1 && u[0] == '/' && u[1] == '/' {
        assert(u.take(2) =~= "//"@);
    }
    if has_prefix(u, "//"@) {
        assert(u.take(2)[0] == u[0] && u.take(2)[1] == u[1]);
    }
}

proof fn lemma_plain_characters(u: Seq<char>)
    ensures
        !some_control(u) && !some_whitespace(u) && !u.contains('#') && !u.contains('\\') <==> forall|i: int|
            0 <= i < u.len() ==> !control(#[trigger] u[i]) && !whitespace(u[i]) && u[i] != '#' && u[i] != '\\',
{
    if !some_control(u) && !some_whitespace(u) && !u.contains('#') && !u.contains('\\') {
        assert forall|i: int| 0 <= i < u.len() implies !control(#[trigger] u[i]) && !whitespace(u[i]) && u[i] != '#'
            && u[i] != '\\' by {
            assert(u.contains(u[i]));
        }
    }
    if forall|i: int|
        0 <= i < u.len() ==> !control(#[trigger] u[i]) && !whitespace(u[i]) && u[i] != '#' && u[i] != '\\' {
        if u.contains('#') {
            assert(u[u.index_of('#')] == '#');
        }
        if u.contains('\\') {
            assert(u[u.index_of('\\')] == '\\');
        }
    }
}

} // verus!
