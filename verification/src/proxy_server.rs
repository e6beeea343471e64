//! Explicit-origin HTTP reverse proxy with live identity checks and bounded WebSocket sessions.
use crate::error::{Error, Failure, agrees, agrees_with, and_also, fails, status_of};
use crate::headers::{Header, HeaderModel, a_header_that_is_set_has_one_value, all_values, header_name, header_name_ok, header_value_ok, header_value_text, header_values, opt_texts, single_value};
use crate::names::{Names, in_order};
use crate::outpost::{own_origin, private_cookie, private_cookie_name, proxy_client, target_check};
use crate::outside::{UrlModel, UrlParts, base64, base64_bytes, base64_decode, base64_of, form_pairs, pair_texts, parse_form, parse_url, sha1, sha1_of, url_of};
use crate::portal::{is_loopback, loopback};
use crate::provisioning::Oauth;
use crate::rules::{Rules, RulesModel, name_check};
use crate::store::Tx;
use crate::table::{Row, Table, views};
use crate::text::{concat, concat3, ends_are_told_by_their_characters, first_at, has_prefix, lower, lowercase, opt_is, opt_text, parts, same, same_ignoring_case, split, split_once, starts_with, strip_prefix, texts, trim, trimmed};
use vstd::utf8::encode_utf8;
use crate::headers::{inserted, removed, remove, insert, single};
use crate::outpost::{Settings, SettingsModel, client};
use vstd::prelude::*;
use vstd::string::*;

verus! {

/// Where an external origin is forwarded to.
pub struct Target {
    pub client_id: String,
    pub upstream: String,
    pub ca_file: Option<String>,
    pub allow_plain_http: bool,
}

/// What a [`Target`] holds.
pub struct TargetModel {
    pub client_id: Seq<char>,
    pub upstream: Seq<char>,
    pub ca_file: Option<Seq<char>>,
    pub allow_plain_http: bool,
}

impl View for Target {
    type V = TargetModel;

    open spec fn view(&self) -> TargetModel {
        TargetModel {
            client_id: self.client_id@,
            upstream: self.upstream@,
            ca_file: crate::text::opt_text(self.ca_file),
            allow_plain_http: self.allow_plain_http,
        }
    }
}

impl Row for Target {
    fn dup(&self) -> (r: Self) {
        Target {
            client_id: self.client_id.clone(),
            upstream: self.upstream.clone(),
            ca_file: crate::text::copy_opt(&self.ca_file),
            allow_plain_http: self.allow_plain_http,
        }
    }
}

/// A listening address and the origins that it serves.
pub struct Listener {
    /// The address is a loopback one.
    pub loopback: bool,
    pub tls_cert_file: Option<String>,
    pub tls_key_file: Option<String>,
    pub routes: Table<Target>,
    pub max_body_bytes: usize,
    pub upstream_timeout_seconds: u64,
}

/// What a [`Listener`] holds.
pub struct ListenerModel {
    pub loopback: bool,
    pub tls_cert_file: Option<Seq<char>>,
    pub tls_key_file: Option<Seq<char>>,
    pub routes: Map<Seq<char>, TargetModel>,
    pub max_body_bytes: usize,
    pub upstream_timeout_seconds: u64,
}

impl View for Listener {
    type V = ListenerModel;

    open spec fn view(&self) -> ListenerModel {
        ListenerModel {
            loopback: self.loopback,
            tls_cert_file: crate::text::opt_text(self.tls_cert_file),
            tls_key_file: crate::text::opt_text(self.tls_key_file),
            routes: self.routes@,
            max_body_bytes: self.max_body_bytes,
            upstream_timeout_seconds: self.upstream_timeout_seconds,
        }
    }
}

impl Row for Listener {
    fn dup(&self) -> (r: Self) {
        Listener {
            loopback: self.loopback,
            tls_cert_file: crate::text::copy_opt(&self.tls_cert_file),
            tls_key_file: crate::text::copy_opt(&self.tls_key_file),
            routes: self.routes.dup(),
            max_body_bytes: self.max_body_bytes,
            upstream_timeout_seconds: self.upstream_timeout_seconds,
        }
    }
}

/// The request size limit where none is configured.
pub fn body_limit() -> (r: usize)
    ensures
        r == 8 * 1024 * 1024,
{
    8 * 1024 * 1024
}

/// The upstream timeout in seconds where none is configured.
pub fn timeout() -> (r: u64)
    ensures
        r == 30,
{
    30
}

/// An exact HTTP or HTTPS origin, or why it is none.
pub open spec fn origin_url(value: Seq<char>) -> Result<UrlModel, Failure> {
    match url_of(value) {
        None => Err(Failure::Bad("Invalid proxy origin"@)),
        Some(u) => if (u.scheme != "http"@ && u.scheme != "https"@) || u.origin != value {
            Err(
                Failure::Bad(
                    "Proxy routes require exact HTTP(S) origins without paths or credentials"@,
                ),
            )
        } else {
            Ok(u)
        },
    }
}

pub fn origin(value: &str) -> (r: Result<UrlParts, Error>)
    ensures
        agrees_with(r, origin_url(value@)),
{
    match parse_url(value) {
        None => Err(Error::bad("Invalid proxy origin")),
        Some(u) => {
            if (!same(u.scheme.as_str(), "http") && !same(u.scheme.as_str(), "https")) || !same(
                u.origin.as_str(),
                value,
            ) {
                Err(
                    Error::bad(
                        "Proxy routes require exact HTTP(S) origins without paths or credentials",
                    ),
                )
            } else {
                Ok(u)
            }
        },
    }
}

/// A route of a listener, given the authorities of the routes before it.
pub open spec fn route_check(
    external: Seq<char>,
    target: TargetModel,
    tls: bool,
    before: Set<Seq<char>>,
    rules: RulesModel,
) -> Result<(), Failure> {
    if !rules.server_urls.contains(external) || url_of(external) is None {
        Err(Failure::Bad("External proxy origins require HTTPS or HTTP loopback"@))
    } else {
        let u = url_of(external)->0;
        if u.origin != external || before.contains(u.authority) || (tls && u.scheme != "https"@) {
            Err(
                Failure::Bad(
                    "Proxy needs unique exact authorities and HTTPS origins when TLS is enabled"@,
                ),
            )
        } else if name_check(rules, target.client_id) is Err {
            name_check(rules, target.client_id)
        } else {
            match origin_url(target.upstream) {
                Err(f) => Err(f),
                Ok(up) => if up.scheme == "http"@ && target.ca_file is Some {
                    Err(Failure::Bad("Plain HTTP upstream cannot use a CA file"@))
                } else if up.scheme == "http"@ && !target.allow_plain_http && !loopback(up.host) {
                    Err(
                        Failure::Bad(
                            "Non-loopback HTTP upstream requires explicit allow_plain_http"@,
                        ),
                    )
                } else {
                    Ok(())
                },
            }
        }
    }
}

/// The authorities of a list of external origins.
pub open spec fn authorities(keys: Seq<Seq<char>>) -> Set<Seq<char>> {
    keys.map_values(|k: Seq<char>| (url_of(k)->0).authority).to_set()
}

/// The routes in order: the first one that is refused.
pub open spec fn routes_check(
    keys: Seq<Seq<char>>,
    routes: Map<Seq<char>, TargetModel>,
    tls: bool,
    rules: RulesModel,
) -> Result<(), Failure>
    decreases keys.len(),
{
    if keys.len() == 0 {
        Ok(())
    } else {
        let rest = keys.drop_last();
        and_also(
            routes_check(rest, routes, tls, rules),
            route_check(keys.last(), routes[keys.last()], tls, authorities(rest), rules),
        )
    }
}

pub open spec fn listener_check(l: ListenerModel, rules: RulesModel) -> Result<(), Failure> {
    if l.routes.dom().len() == 0 || l.routes.dom().len() > 64 || l.max_body_bytes == 0
        || l.max_body_bytes > 64 * 1024 * 1024 || !(1 <= l.upstream_timeout_seconds <= 300) {
        Err(
            Failure::Bad(
                "Proxy requires 1..64 routes, a 1-byte..64-MiB request limit and 1..300-second upstream timeout"@,
            ),
        )
    } else if (l.tls_cert_file is Some) != (l.tls_key_file is Some) || (!l.loopback
        && l.tls_cert_file is None) {
        Err(
            Failure::Bad(
                "Proxy listeners require certificate/key files together and native TLS on non-loopback addresses"@,
            ),
        )
    } else {
        routes_check(in_order(l.routes.dom()), l.routes, l.tls_cert_file is Some, rules)
    }
}

proof fn lemma_routes_fail(
    keys: Seq<Seq<char>>,
    routes: Map<Seq<char>, TargetModel>,
    tls: bool,
    rules: RulesModel,
    n: int,
)
    requires
        0 <= n <= keys.len(),
        routes_check(keys.take(n), routes, tls, rules) is Err,
    ensures
        routes_check(keys, routes, tls, rules) == routes_check(keys.take(n), routes, tls, rules),
    decreases keys.len() - n,
{
    if n < keys.len() {
        assert(keys.take(n + 1).drop_last() =~= keys.take(n));
        lemma_routes_fail(keys, routes, tls, rules, n + 1);
    } else {
        assert(keys.take(n) =~= keys);
    }
}

proof fn lemma_authorities_push(keys: Seq<Seq<char>>, k: Seq<char>)
    ensures
        authorities(keys.push(k)) == authorities(keys).insert((url_of(k)->0).authority),
{
    let f = |x: Seq<char>| (url_of(x)->0).authority;
    let a = keys.map_values(f);
    let b = keys.push(k).map_values(f);
    assert(b =~= a.push(f(k)));
    assert forall|s: Seq<char>| b.to_set().contains(s) <==> a.to_set().insert(f(k)).contains(s) by {
        if a.contains(s) {
            assert(b[a.index_of(s)] == s);
        }
        if s == f(k) {
            assert(b[a.len() as int] == s);
        }
        if b.contains(s) && s != f(k) {
            assert(a[b.index_of(s)] == s);
        }
    }
    assert(b.to_set() =~= a.to_set().insert(f(k)));
}

fn check_route(external: &str, target: &Target, tls: bool, seen: &mut Names, rules: &Rules) -> (r: Result<
    (),
    Error,
>)
    ensures
        agrees(r, route_check(external@, target@, tls, old(seen)@, rules@)),
        r is Ok ==> final(seen)@ == old(seen)@.insert((url_of(external@)->0).authority),
{
    if !rules.server_urls.contains(external) {
        return Err(Error::bad("External proxy origins require HTTPS or HTTP loopback"));
    }
    let u = match parse_url(external) {
        None => return Err(Error::bad("External proxy origins require HTTPS or HTTP loopback")),
        Some(u) => u,
    };
    if !same(u.origin.as_str(), external) || !seen.insert(u.authority.as_str()) || tls && !same(
        u.scheme.as_str(),
        "https",
    ) {
        return Err(
            Error::bad(
                "Proxy needs unique exact authorities and HTTPS origins when TLS is enabled",
            ),
        );
    }
    if let Err(e) = rules.check_name(target.client_id.as_str()) {
        return Err(e);
    }
    let up = match origin(target.upstream.as_str()) {
        Ok(u) => u,
        Err(e) => return Err(e),
    };
    let plain = same(up.scheme.as_str(), "http");
    if plain && target.ca_file.is_some() {
        return Err(Error::bad("Plain HTTP upstream cannot use a CA file"));
    }
    if plain && !target.allow_plain_http && !is_loopback(&up.host) {
        return Err(Error::bad("Non-loopback HTTP upstream requires explicit allow_plain_http"));
    }
    Ok(())
}

impl Listener {
    #[verifier::loop_isolation(false)]
    pub fn validate(&self, rules: &Rules) -> (r: Result<(), Error>)
        ensures
            agrees(r, listener_check(self@, rules@)),
    {
        let keys = self.routes.keys();
        let n: usize = keys.len();
        if n == 0 || n > 64 || self.max_body_bytes == 0 || self.max_body_bytes > 64 * 1024 * 1024
            || self.upstream_timeout_seconds < 1 || self.upstream_timeout_seconds > 300 {
            return Err(
                Error::bad(
                    "Proxy requires 1..64 routes, a 1-byte..64-MiB request limit and 1..300-second upstream timeout",
                ),
            );
        }
        let tls = self.tls_cert_file.is_some();
        if tls != self.tls_key_file.is_some() || (!self.loopback && !tls) {
            return Err(
                Error::bad(
                    "Proxy listeners require certificate/key files together and native TLS on non-loopback addresses",
                ),
            );
        }
        let ghost all = in_order(keys@);
        let mut seen = Names::new();
        let mut i: usize = 0;
        assert(all.take(0) =~= Seq::<Seq<char>>::empty());
        assert(authorities(all.take(0)) =~= seen@);
        while i < n
            invariant
                i <= n,
                seen@ == authorities(all.take(i as int)),
                routes_check(all.take(i as int), self@.routes, tls, rules@) is Ok,
            decreases n - i,
        {
            let k = keys.at(i);
            proof {
                assert(all.take(i + 1).drop_last() =~= all.take(i as int));
                assert(all.take(i + 1) =~= all.take(i as int).push(k@));
                lemma_authorities_push(all.take(i as int), k@);
                if routes_check(all.take(i + 1), self@.routes, tls, rules@) is Err {
                    lemma_routes_fail(all, self@.routes, tls, rules@, i + 1);
                }
            }
            if let Some(target) = self.routes.get(k.as_str()) {
                if let Err(e) = check_route(k.as_str(), target, tls, &mut seen, rules) {
                    return Err(e);
                }
            }
            i = i + 1;
        }
        assert(all.take(i as int) =~= all);
        Ok(())
    }
}

/// A header by which applications learn who is signed in.
pub open spec fn is_identity_header(name: Seq<char>) -> bool {
    has_prefix(name, "x-authentik-"@) || has_prefix(name, "x-auth-"@) || has_prefix(name, "x-riauth-"@)
}

pub fn identity_header(name: &str) -> (r: bool)
    ensures
        r == is_identity_header(name@),
{
    starts_with(name, "x-authentik-") || starts_with(name, "x-auth-") || starts_with(name, "x-riauth-")
}

/// A header that concerns one connection only.
pub open spec fn hop_by_hop(name: Seq<char>) -> bool {
    name == "connection"@ || name == "keep-alive"@ || name == "proxy-authenticate"@ || name
        == "proxy-authorization"@ || name == "te"@ || name == "trailer"@ || name
        == "transfer-encoding"@ || name == "upgrade"@ || name == "content-length"@
}

/// The header names that a list of connection options gives, or why it is refused.
pub open spec fn option_names(list: Seq<Seq<char>>) -> Result<Set<Seq<char>>, Failure>
    decreases list.len(),
{
    if list.len() == 0 {
        Ok(Set::empty())
    } else {
        match option_names(list.drop_last()) {
            Err(f) => Err(f),
            Ok(s) => {
                let name = lower(trimmed(list.last()));
                if header_name(name) {
                    Ok(s.insert(name))
                } else {
                    Err(Failure::Bad("Invalid Connection header token"@))
                }
            },
        }
    }
}

/// The header names that all Connection headers give.
pub open spec fn connection_names(values: Seq<Option<Seq<char>>>) -> Result<Set<Seq<char>>, Failure>
    decreases values.len(),
{
    if values.len() == 0 {
        Ok(Set::empty())
    } else {
        match connection_names(values.drop_last()) {
            Err(f) => Err(f),
            Ok(s) => match values.last() {
                None => Err(Failure::Bad("Invalid Connection header"@)),
                Some(v) => match option_names(parts(v, ',')) {
                    Err(f) => Err(f),
                    Ok(more) => Ok(s.union(more)),
                },
            },
        }
    }
}

/// The header sets a cookie of the provider's own.
pub open spec fn sets_private_cookie(h: HeaderModel) -> bool {
    h.name == "set-cookie"@ && h.value is Some && {
        let v = h.value->0;
        let at = first_at(v, '=');
        at < v.len() && private_cookie_name(trimmed(v.take(at)))
    }
}

/// The header passes the proxy.
pub open spec fn passes(named: Set<Seq<char>>) -> spec_fn(HeaderModel) -> bool {
    |h: HeaderModel|
        !(hop_by_hop(h.name) || named.contains(h.name) || is_identity_header(h.name)
            || sets_private_cookie(h))
}

/// What of a message's headers passes the proxy.
pub open spec fn cleaned(h: Seq<HeaderModel>) -> Result<Seq<HeaderModel>, Failure> {
    match connection_names(header_values(h, "connection"@)) {
        Err(f) => Err(f),
        Ok(named) => Ok(h.filter(passes(named))),
    }
}

proof fn lemma_options_fail(list: Seq<Seq<char>>, n: int)
    requires
        0 <= n <= list.len(),
        option_names(list.take(n)) is Err,
    ensures
        option_names(list) == option_names(list.take(n)),
    decreases list.len() - n,
{
    if n < list.len() {
        assert(list.take(n + 1).drop_last() =~= list.take(n));
        lemma_options_fail(list, n + 1);
    } else {
        assert(list.take(n) =~= list);
    }
}

proof fn lemma_connection_fails(values: Seq<Option<Seq<char>>>, n: int)
    requires
        0 <= n <= values.len(),
        connection_names(values.take(n)) is Err,
    ensures
        connection_names(values) == connection_names(values.take(n)),
    decreases values.len() - n,
{
    if n < values.len() {
        assert(values.take(n + 1).drop_last() =~= values.take(n));
        lemma_connection_fails(values, n + 1);
    } else {
        assert(values.take(n) =~= values);
    }
}

fn add_options(value: &str, named: &mut Names) -> (r: Result<(), Error>)
    ensures
        match option_names(parts(value@, ',')) {
            Ok(s) => r is Ok && final(named)@ == old(named)@.union(s),
            Err(f) => fails(r, f),
        },
{
    let list = split(value, ',');
    let ghost all = texts(list@);
    let ghost start = named@;
    let mut i: usize = 0;
    assert(all.take(0) =~= Seq::<Seq<char>>::empty());
    assert(start.union(Set::empty()) =~= start);
    while i < list.len()
        invariant
            i <= list.len(),
            all == texts(list@),
            all == parts(value@, ','),
            option_names(all.take(i as int)) is Ok,
            named@ == start.union(option_names(all.take(i as int))->Ok_0),
        decreases list.len() - i,
    {
        proof {
            assert(all.take(i + 1).drop_last() =~= all.take(i as int));
            assert(all.take(i + 1).last() == list@[i as int]@);
            if option_names(all.take(i + 1)) is Err {
                lemma_options_fail(all, i + 1);
            }
        }
        let bare = trim(list[i].as_str());
        let name = lowercase(bare.as_str());
        if !header_name_ok(name.as_str()) {
            return Err(Error::bad("Invalid Connection header token"));
        }
        let _ = named.insert(name.as_str());
        i = i + 1;
        assert(named@ =~= start.union(option_names(all.take(i as int))->Ok_0));
    }
    assert(all.take(i as int) =~= all);
    Ok(())
}

fn named_by_connection(headers: &Vec<Header>) -> (r: Result<Names, Error>)
    ensures
        agrees_with(r, connection_names(header_values(views(headers@), "connection"@))),
{
    let values = all_values(headers, "connection");
    let ghost all = opt_texts(values@);
    let mut named = Names::new();
    let mut i: usize = 0;
    assert(all.take(0) =~= Seq::<Option<Seq<char>>>::empty());
    while i < values.len()
        invariant
            i <= values.len(),
            all == opt_texts(values@),
            all == header_values(views(headers@), "connection"@),
            connection_names(all.take(i as int)) == Ok::<Set<Seq<char>>, Failure>(named@),
        decreases values.len() - i,
    {
        proof {
            assert(all.take(i + 1).drop_last() =~= all.take(i as int));
            assert(all.take(i + 1).last() == opt_text(values@[i as int]));
            if connection_names(all.take(i + 1)) is Err {
                lemma_connection_fails(all, i + 1);
            }
        }
        match &values[i] {
            None => return Err(Error::bad("Invalid Connection header")),
            Some(v) => {
                if let Err(e) = add_options(v.as_str(), &mut named) {
                    return Err(e);
                }
            },
        }
        i = i + 1;
    }
    assert(all.take(i as int) =~= all);
    Ok(named)
}

fn is_hop_by_hop(name: &str) -> (r: bool)
    ensures
        r == hop_by_hop(name@),
{
    same(name, "connection") || same(name, "keep-alive") || same(name, "proxy-authenticate") || same(
        name,
        "proxy-authorization",
    ) || same(name, "te") || same(name, "trailer") || same(name, "transfer-encoding") || same(
        name,
        "upgrade",
    ) || same(name, "content-length")
}

fn is_private_cookie_setter(h: &Header) -> (r: bool)
    ensures
        r == sets_private_cookie(h@),
{
    if !same(h.name.as_str(), "set-cookie") {
        return false;
    }
    match &h.value {
        None => false,
        Some(v) => match split_once(v.as_str(), '=') {
            None => false,
            Some((name, _)) => {
                let bare = trim(name.as_str());
                private_cookie(bare.as_str())
            },
        },
    }
}

/// Drops what concerns one connection, what names an identity, and the provider's own cookies.
pub fn clean(headers: &Vec<Header>) -> (r: Result<Vec<Header>, Error>)
    ensures
        match cleaned(views(headers@)) {
            Ok(h) => r is Ok && views(r->Ok_0@) == h,
            Err(f) => fails(r, f),
        },
{
    let named = match named_by_connection(headers) {
        Ok(n) => n,
        Err(e) => return Err(e),
    };
    let ghost all = views(headers@);
    let ghost p = passes(named@);
    let mut out: Vec<Header> = Vec::new();
    let mut i: usize = 0;
    assert(views(out@) =~= all.take(0).filter(p));
    while i < headers.len()
        invariant
            i <= headers.len(),
            all == views(headers@),
            p == passes(named@),
            views(out@) == all.take(i as int).filter(p),
        decreases headers.len() - i,
    {
        let h = &headers[i];
        let ghost was = views(out@);
        proof {
            assert(all.take(i + 1) =~= all.take(i as int).push(headers@[i as int]@));
            all.take(i as int).lemma_filter_push(headers@[i as int]@, p);
        }
        if !(is_hop_by_hop(h.name.as_str()) || named.contains(h.name.as_str()) || identity_header(
            h.name.as_str(),
        ) || is_private_cookie_setter(h)) {
            out.push(h.dup());
            assert(views(out@) =~= was.push(headers@[i as int]@));
        }
        i = i + 1;
    }
    assert(all.take(i as int) =~= all);
    Ok(out)
}

/// No identity header of a client, and no cookie of the provider that an application sets, passes
/// the proxy.
pub proof fn identity_headers_never_pass(h: Seq<HeaderModel>, i: int)
    requires
        cleaned(h) is Ok,
        0 <= i < (cleaned(h)->Ok_0).len(),
    ensures
        !is_identity_header((cleaned(h)->Ok_0)[i].name),
        !hop_by_hop((cleaned(h)->Ok_0)[i].name),
        !sets_private_cookie((cleaned(h)->Ok_0)[i]),
{
    let named = connection_names(header_values(h, "connection"@))->Ok_0;
    h.lemma_filter_pred(passes(named), i);
}

/// A request to the proxy.
pub struct ProxyRequest {
    pub method: String,
    /// The target names a scheme or an authority.
    pub absolute: bool,
    pub path: String,
    /// The path and the query as they were sent.
    pub path_query: String,
    pub query: Option<String>,
    pub headers: Vec<Header>,
}

/// What a [`ProxyRequest`] holds.
pub struct ProxyRequestModel {
    pub method: Seq<char>,
    pub absolute: bool,
    pub path: Seq<char>,
    pub path_query: Seq<char>,
    pub query: Option<Seq<char>>,
    pub headers: Seq<HeaderModel>,
}

impl View for ProxyRequest {
    type V = ProxyRequestModel;

    open spec fn view(&self) -> ProxyRequestModel {
        ProxyRequestModel {
            method: self.method@,
            absolute: self.absolute,
            path: self.path@,
            path_query: self.path_query@,
            query: crate::text::opt_text(self.query),
            headers: crate::table::views(self.headers@),
        }
    }
}

impl Row for ProxyRequest {
    fn dup(&self) -> (r: Self) {
        ProxyRequest {
            method: self.method.clone(),
            absolute: self.absolute,
            path: self.path.clone(),
            path_query: self.path_query.clone(),
            query: crate::text::copy_opt(&self.query),
            headers: crate::table::dup_list(&self.headers),
        }
    }
}

/// An external origin and where it is forwarded to.
pub struct Route {
    pub external: String,
    pub target: Target,
}

/// What a [`Route`] holds.
pub struct RouteModel {
    pub external: Seq<char>,
    pub target: TargetModel,
}

impl View for Route {
    type V = RouteModel;

    open spec fn view(&self) -> RouteModel {
        RouteModel {
            external: self.external@,
            target: self.target@,
        }
    }
}

impl Row for Route {
    fn dup(&self) -> (r: Self) {
        Route {
            external: self.external.clone(),
            target: self.target.dup(),
        }
    }
}

/// The route of a request, or why it has none.
pub open spec fn routed(q: ProxyRequestModel, routes: Map<Seq<char>, RouteModel>) -> Result<
    RouteModel,
    Failure,
> {
    if q.absolute || q.method == "CONNECT"@ || q.method == "TRACE"@ {
        Err(Failure::Bad("Unsupported proxy request target or method"@))
    } else {
        match single_value(q.headers, "host"@) {
            Err(f) => Err(f),
            Ok(None) => Err(Failure::Bad("Host is required"@)),
            Ok(Some(host)) => if routes.dom().contains(host) {
                Ok(routes[host])
            } else {
                Err(Failure::Missing("Proxy origin not configured"@))
            },
        }
    }
}

pub fn find_route(request: &ProxyRequest, routes: &Table<Route>) -> (r: Result<Route, Error>)
    ensures
        agrees_with(r, routed(request@, routes@)),
{
    if request.absolute || same(request.method.as_str(), "CONNECT") || same(
        request.method.as_str(),
        "TRACE",
    ) {
        return Err(Error::bad("Unsupported proxy request target or method"));
    }
    let host = match single(&request.headers, "host") {
        Ok(Some(h)) => h,
        Ok(None) => return Err(Error::bad("Host is required")),
        Err(e) => return Err(e),
    };
    match routes.get(host.as_str()) {
        Some(r) => Ok(r.dup()),
        None => Err(Error::missing("Proxy origin not configured")),
    }
}

/// The settings of the client behind a route.
pub fn profile(tx: &Tx, route: &Route, rules: &Rules) -> (r: Result<Settings, Error>)
    ensures
        match proxy_client(tx@, route@.target.client_id, rules@) {
            Err(f) => fails(r, f),
            Ok((_, s)) => if own_origin(s, route@.external) {
                r is Ok && r->Ok_0@ == s
            } else {
                fails(r, Failure::Forbidden)
            },
        },
{
    let (_, settings) = match client(tx, route.target.client_id.as_str(), rules) {
        Ok(p) => p,
        Err(e) => return Err(e),
    };
    if settings.allows_origin(route.external.as_str()) {
        Ok(settings)
    } else {
        Err(Error::Forbidden)
    }
}

/// A method that does not write.
pub open spec fn reading(method: Seq<char>) -> bool {
    method == "GET"@ || method == "HEAD"@ || method == "OPTIONS"@
}

/// Writes come from the application itself: the browser names its origin, or is known to be on it.
pub open spec fn write_guard(q: ProxyRequestModel, external: Seq<char>) -> Result<(), Failure> {
    if reading(q.method) {
        Ok(())
    } else {
        match (single_value(q.headers, "origin"@), single_value(q.headers, "sec-fetch-site"@)) {
            (Err(f), _) => Err(f),
            (Ok(_), Err(f)) => Err(f),
            (Ok(o), Ok(s)) => if (o is Some && o != Some(external)) || (s is Some && s != Some(
                "same-origin"@,
            ) && s != Some("none"@)) {
                Err(Failure::Forbidden)
            } else {
                Ok(())
            },
        }
    }
}

fn guard_write(request: &ProxyRequest, external: &str) -> (r: Result<(), Error>)
    ensures
        agrees(r, write_guard(request@, external@)),
{
    let m = request.method.as_str();
    if same(m, "GET") || same(m, "HEAD") || same(m, "OPTIONS") {
        return Ok(());
    }
    let o = match single(&request.headers, "origin") {
        Ok(v) => v,
        Err(e) => return Err(e),
    };
    let s = match single(&request.headers, "sec-fetch-site") {
        Ok(v) => v,
        Err(e) => return Err(e),
    };
    if (o.is_some() && !opt_is(&o, external)) || (s.is_some() && !opt_is(&s, "same-origin") && !opt_is(
        &s,
        "none",
    )) {
        return Err(Error::Forbidden);
    }
    Ok(())
}

/// What the proxy does with an admitted request.
pub enum Dispatch {
    /// The browser goes to the same address at the application's main origin.
    Redirect(String),
    /// A request for this action of the outpost.
    Outpost(String),
    /// A request for the application at this URL.
    Application(String),
}

/// What a [`Dispatch`] holds.
pub enum DispatchModel {
    Redirect(Seq<char>),
    Outpost(Seq<char>),
    Application(Seq<char>),
}

impl View for Dispatch {
    type V = DispatchModel;

    open spec fn view(&self) -> DispatchModel {
        match *self {
            Dispatch::Redirect(u) => DispatchModel::Redirect(u@),
            Dispatch::Outpost(a) => DispatchModel::Outpost(a@),
            Dispatch::Application(u) => DispatchModel::Application(u@),
        }
    }
}

/// Where an admitted request goes, or why it is refused.
pub open spec fn dispatched(q: ProxyRequestModel, route: RouteModel, s: SettingsModel) -> Result<
    DispatchModel,
    Failure,
> {
    let url = route.external + q.path_query;
    let prefix = "/outpost/"@ + route.target.client_id + "/"@;
    let action = q.path.skip(prefix.len() as int);
    if write_guard(q, route.external) is Err {
        Err(write_guard(q, route.external)->Err_0)
    } else if !header_value_text(url) {
        Err(Failure::Bad("Invalid proxy request URL"@))
    } else if has_prefix(q.path, "/outpost/"@) {
        if !has_prefix(q.path, prefix) {
            Err(Failure::Missing("Outpost endpoint not found"@))
        } else if route.external != s.external_origin && (action == "start"@ || action == "callback"@) {
            Ok(DispatchModel::Redirect(s.external_origin + q.path_query))
        } else {
            Ok(DispatchModel::Outpost(action))
        }
    } else {
        match target_check(s, url) {
            Err(f) => Err(f),
            Ok(_) => Ok(DispatchModel::Application(url)),
        }
    }
}

/// Decides what to do with an admitted request. The write guard comes before everything else.
pub fn dispatch(request: &ProxyRequest, route: &Route, settings: &Settings) -> (r: Result<
    Dispatch,
    Error,
>)
    ensures
        agrees_with(r, dispatched(request@, route@, settings@)),
{
    if let Err(e) = guard_write(request, route.external.as_str()) {
        return Err(e);
    }
    let url = concat(route.external.as_str(), request.path_query.as_str());
    if !header_value_ok(url.as_str()) {
        return Err(Error::bad("Invalid proxy request URL"));
    }
    if starts_with(request.path.as_str(), "/outpost/") {
        let prefix = concat3("/outpost/", route.target.client_id.as_str(), "/");
        let action = match strip_prefix(request.path.as_str(), prefix.as_str()) {
            Some(a) => a,
            None => return Err(Error::missing("Outpost endpoint not found")),
        };
        if !same(route.external.as_str(), settings.external_origin.as_str()) && (same(
            action.as_str(),
            "start",
        ) || same(action.as_str(), "callback")) {
            let to = concat(settings.external_origin.as_str(), request.path_query.as_str());
            return Ok(Dispatch::Redirect(to));
        }
        return Ok(Dispatch::Outpost(action));
    }
    match settings.target(url.as_str()) {
        Err(e) => Err(e),
        Ok(_) => Ok(Dispatch::Application(url)),
    }
}

/// An operation of the outpost.
pub enum OutpostCall {
    /// Start a login that returns to this URL.
    Start(String),
    /// Finish a login with these parameters.
    Callback(Vec<(String, String)>),
    Logout,
}

/// Which operation of the outpost a request asks for.
pub fn outpost_call(method: &str, action: &str, query: &Option<String>) -> (r: Result<
    OutpostCall,
    Error,
>)
    ensures
        ({
            let pairs = form_pairs(
                match opt_text(*query) {
                    Some(q) => q,
                    None => ""@,
                },
            );
            if method@ == "GET"@ && action@ == "start"@ {
                if pairs.len() == 1 && pairs[0].0 == "rd"@ {
                    r matches Ok(OutpostCall::Start(u)) && u@ == pairs[0].1
                } else {
                    fails(r, Failure::Bad("Start requires exactly one rd parameter"@))
                }
            } else if method@ == "GET"@ && action@ == "callback"@ {
                r matches Ok(OutpostCall::Callback(p)) && pair_texts(p@) == pairs
            } else if method@ == "POST"@ && action@ == "logout"@ {
                r matches Ok(OutpostCall::Logout)
            } else {
                fails(r, Failure::Missing("Outpost endpoint not found"@))
            }
        }),
{
    let text = match query {
        Some(q) => q.as_str(),
        None => "",
    };
    let pairs = parse_form(text);
    let ghost all = pair_texts(pairs@);
    if same(method, "GET") && same(action, "start") {
        assert(all.len() == pairs.len());
        if pairs.len() != 1 {
            return Err(Error::bad("Start requires exactly one rd parameter"));
        }
        assert(all[0] == (pairs@[0].0@, pairs@[0].1@));
        if !same(pairs[0].0.as_str(), "rd") {
            return Err(Error::bad("Start requires exactly one rd parameter"));
        }
        return Ok(OutpostCall::Start(pairs[0].1.clone()));
    }
    if same(method, "GET") && same(action, "callback") {
        return Ok(OutpostCall::Callback(pairs));
    }
    if same(method, "POST") && same(action, "logout") {
        return Ok(OutpostCall::Logout);
    }
    Err(Error::missing("Outpost endpoint not found"))
}

/// A request that is not signed in starts a login only where the browser can follow it.
pub open spec fn starts_login(error: Failure, method: Seq<char>, websocket: bool) -> bool {
    (error == Failure::Unauthorized || (error matches Failure::Reply(status, _, _) && status == 401))
        && (method == "GET"@ || method == "HEAD"@) && !websocket
}

pub fn redirects_to_login(error: &Error, method: &str, websocket: bool) -> (r: bool)
    ensures
        r == starts_login(error@, method@, websocket),
{
    let unauthorized = match error {
        Error::Unauthorized => true,
        Error::Reply(status, _, _) => *status == 401,
        _ => false,
    };
    unauthorized && (same(method, "GET") || same(method, "HEAD")) && !websocket
}

/// The headers without those that only the proxy may set.
pub open spec fn without_forwarded(h: Seq<HeaderModel>) -> Seq<HeaderModel> {
    removed(
        removed(
            removed(
                removed(
                    removed(
                        removed(
                            removed(
                                removed(removed(h, "host"@), "authorization"@),
                                "cookie"@,
                            ),
                            "forwarded"@,
                        ),
                        "x-original-url"@,
                    ),
                    "x-forwarded-for"@,
                ),
                "x-forwarded-host"@,
            ),
            "x-forwarded-proto"@,
        ),
        "x-real-ip"@,
    )
}

/// The headers with the identity headers in place of whatever had their names.
pub open spec fn with_identity(h: Seq<HeaderModel>, id: Seq<HeaderModel>) -> Seq<HeaderModel>
    decreases id.len(),
{
    if id.len() == 0 {
        h
    } else {
        let rest = with_identity(h, id.drop_last());
        if id.last().name == "x-riauth-app-cookie"@ || id.last().value is None {
            rest
        } else {
            inserted(rest, id.last().name, id.last().value->0)
        }
    }
}

/// The headers with the application's cookies, if it has any.
pub open spec fn with_app_cookie(h: Seq<HeaderModel>, id: Seq<HeaderModel>) -> Seq<HeaderModel> {
    let v = header_values(id, "x-riauth-app-cookie"@);
    if v.len() > 0 && v[0] is Some && (v[0]->0).len() > 0 {
        inserted(h, "cookie"@, v[0]->0)
    } else {
        h
    }
}

/// The headers without those of the WebSocket handshake.
pub open spec fn without_socket(h: Seq<HeaderModel>) -> Seq<HeaderModel> {
    removed(
        removed(
            removed(removed(h, "sec-websocket-key"@), "sec-websocket-version"@),
            "sec-websocket-protocol"@,
        ),
        "sec-websocket-extensions"@,
    )
}

/// The key of a WebSocket handshake, or why it is refused: version 13, from the application's own
/// origin, with a key of 16 bytes.
pub open spec fn socket_key(q: ProxyRequestModel, external: Seq<char>) -> Result<Seq<char>, Failure> {
    let upgrade = single_value(q.headers, "upgrade"@);
    let version = single_value(q.headers, "sec-websocket-version"@);
    let origin_value = single_value(q.headers, "origin"@);
    let key = single_value(q.headers, "sec-websocket-key"@);
    let protocol = single_value(q.headers, "sec-websocket-protocol"@);
    if q.method != "GET"@ {
        Err(Failure::Forbidden)
    } else if upgrade is Err {
        Err(upgrade->Err_0)
    } else if upgrade->Ok_0 is None || lower(upgrade->Ok_0->0) != lower("websocket"@) {
        Err(Failure::Forbidden)
    } else if version is Err {
        Err(version->Err_0)
    } else if version->Ok_0 != Some("13"@) {
        Err(Failure::Forbidden)
    } else if origin_value is Err {
        Err(origin_value->Err_0)
    } else if origin_value->Ok_0 != Some(external) {
        Err(Failure::Forbidden)
    } else if key is Err {
        Err(key->Err_0)
    } else if key->Ok_0 is None || base64_bytes(key->Ok_0->0) is None || (base64_bytes(
        key->Ok_0->0,
    )->0).len() != 16 {
        Err(Failure::Bad("Invalid WebSocket key"@))
    } else if protocol is Err {
        Err(protocol->Err_0)
    } else {
        Ok(key->Ok_0->0)
    }
}

fn find_socket_key(request: &ProxyRequest, external: &str) -> (r: Result<String, Error>)
    ensures
        agrees_with(r, socket_key(request@, external@)),
{
    if !same(request.method.as_str(), "GET") {
        return Err(Error::Forbidden);
    }
    match single(&request.headers, "upgrade") {
        Err(e) => return Err(e),
        Ok(None) => return Err(Error::Forbidden),
        Ok(Some(v)) => {
            if !same_ignoring_case(v.as_str(), "websocket") {
                return Err(Error::Forbidden);
            }
        },
    }
    match single(&request.headers, "sec-websocket-version") {
        Err(e) => return Err(e),
        Ok(v) => {
            if !opt_is(&v, "13") {
                return Err(Error::Forbidden);
            }
        },
    }
    match single(&request.headers, "origin") {
        Err(e) => return Err(e),
        Ok(v) => {
            if !opt_is(&v, external) {
                return Err(Error::Forbidden);
            }
        },
    }
    let key = match single(&request.headers, "sec-websocket-key") {
        Err(e) => return Err(e),
        Ok(None) => return Err(Error::bad("Invalid WebSocket key")),
        Ok(Some(k)) => k,
    };
    match base64_decode(key.as_str()) {
        Some(b) => {
            if b.len() != 16 {
                return Err(Error::bad("Invalid WebSocket key"));
            }
        },
        None => return Err(Error::bad("Invalid WebSocket key")),
    }
    if let Err(e) = single(&request.headers, "sec-websocket-protocol") {
        return Err(e);
    }
    Ok(key)
}

/// A request as it is forwarded.
pub struct Forwarded {
    pub headers: Vec<Header>,
    /// The key of a WebSocket handshake.
    pub ws_key: Option<String>,
    /// The WebSocket protocols that the client offers.
    pub offered: String,
}

/// What a [`Forwarded`] holds.
pub struct ForwardedModel {
    pub headers: Seq<HeaderModel>,
    pub ws_key: Option<Seq<char>>,
    pub offered: Seq<char>,
}

impl View for Forwarded {
    type V = ForwardedModel;

    open spec fn view(&self) -> ForwardedModel {
        ForwardedModel {
            headers: crate::table::views(self.headers@),
            ws_key: crate::text::opt_text(self.ws_key),
            offered: self.offered@,
        }
    }
}

impl Row for Forwarded {
    fn dup(&self) -> (r: Self) {
        Forwarded {
            headers: crate::table::dup_list(&self.headers),
            ws_key: crate::text::copy_opt(&self.ws_key),
            offered: self.offered.clone(),
        }
    }
}

/// The request asks to upgrade its connection.
pub open spec fn asks_upgrade(q: ProxyRequestModel) -> Result<bool, Failure> {
    match single_value(q.headers, "upgrade"@) {
        Err(f) => Err(f),
        Ok(v) => Ok(v is Some),
    }
}

/// The headers that every forwarded request gets: who is signed in, and where the request came in.
pub open spec fn forwarded_headers(
    q: ProxyRequestModel,
    external: UrlModel,
    identity: Seq<HeaderModel>,
    peer: Seq<char>,
) -> Seq<HeaderModel> {
    let base = without_forwarded(cleaned(q.headers)->Ok_0);
    inserted(
        inserted(
            inserted(
                with_app_cookie(with_identity(base, identity), identity),
                "x-forwarded-host"@,
                external.authority,
            ),
            "x-forwarded-proto"@,
            external.scheme,
        ),
        "x-forwarded-for"@,
        peer,
    )
}

/// How a signed-in request is forwarded, or why it is refused. `empty` tells whether its body is.
pub open spec fn forward_check(
    q: ProxyRequestModel,
    route: RouteModel,
    identity: Seq<HeaderModel>,
    peer: Seq<char>,
    empty: bool,
) -> Result<ForwardedModel, Failure> {
    if asks_upgrade(q) is Err {
        Err(asks_upgrade(q)->Err_0)
    } else if cleaned(q.headers) is Err {
        Err(cleaned(q.headers)->Err_0)
    } else if origin_url(route.external) is Err {
        Err(origin_url(route.external)->Err_0)
    } else {
        let h = forwarded_headers(q, origin_url(route.external)->Ok_0, identity, peer);
        if asks_upgrade(q)->Ok_0 {
            match socket_key(q, route.external) {
                Err(f) => Err(f),
                Ok(key) => if !empty {
                    Err(Failure::Bad("WebSocket handshake cannot carry a request body"@))
                } else {
                    Ok(
                        ForwardedModel {
                            headers: inserted(
                                inserted(h, "upgrade"@, "websocket"@),
                                "connection"@,
                                "Upgrade"@,
                            ),
                            ws_key: Some(key),
                            offered: offered_protocols(q),
                        },
                    )
                },
            }
        } else {
            match single_value(q.headers, "sec-websocket-protocol"@) {
                Err(f) => Err(f),
                Ok(_) => Ok(
                    ForwardedModel {
                        headers: without_socket(h),
                        ws_key: None,
                        offered: offered_protocols(q),
                    },
                ),
            }
        }
    }
}

/// The WebSocket protocols that a request offers.
pub open spec fn offered_protocols(q: ProxyRequestModel) -> Seq<char> {
    match single_value(q.headers, "sec-websocket-protocol"@)->Ok_0 {
        Some(v) => v,
        None => ""@,
    }
}

fn insert_identity(headers: &mut Vec<Header>, identity: &Vec<Header>)
    ensures
        views(final(headers)@) == with_identity(views(old(headers)@), views(identity@)),
{
    let ghost all = views(identity@);
    let ghost start = views(headers@);
    let mut i: usize = 0;
    assert(all.take(0) =~= Seq::<HeaderModel>::empty());
    while i < identity.len()
        invariant
            i <= identity.len(),
            all == views(identity@),
            views(headers@) == with_identity(start, all.take(i as int)),
        decreases identity.len() - i,
    {
        proof {
            assert(all.take(i + 1).drop_last() =~= all.take(i as int));
            assert(all.take(i + 1).last() == identity@[i as int]@);
        }
        let h = &identity[i];
        if let Some(v) = &h.value {
            if !same(h.name.as_str(), "x-riauth-app-cookie") {
                insert(headers, h.name.as_str(), v.as_str());
            }
        }
        i = i + 1;
    }
    assert(all.take(i as int) =~= all);
}

/// Builds the request that the application gets: the client's own identity, forwarding and
/// credential headers are dropped, and the proxy's are set.
pub fn forward(
    request: &ProxyRequest,
    route: &Route,
    identity: &Vec<Header>,
    peer: &str,
    empty: bool,
) -> (r: Result<Forwarded, Error>)
    ensures
        agrees_with(r, forward_check(request@, route@, views(identity@), peer@, empty)),
{
    let websocket = match single(&request.headers, "upgrade") {
        Ok(v) => v.is_some(),
        Err(e) => return Err(e),
    };
    let mut headers = match clean(&request.headers) {
        Ok(h) => h,
        Err(e) => return Err(e),
    };
    let external = match origin(route.external.as_str()) {
        Ok(u) => u,
        Err(e) => return Err(e),
    };
    remove(&mut headers, "host");
    remove(&mut headers, "authorization");
    remove(&mut headers, "cookie");
    remove(&mut headers, "forwarded");
    remove(&mut headers, "x-original-url");
    remove(&mut headers, "x-forwarded-for");
    remove(&mut headers, "x-forwarded-host");
    remove(&mut headers, "x-forwarded-proto");
    remove(&mut headers, "x-real-ip");
    insert_identity(&mut headers, identity);
    let cookies = all_values(identity, "x-riauth-app-cookie");
    if cookies.len() > 0 {
        assert(opt_texts(cookies@)[0] == opt_text(cookies@[0]));
        if let Some(v) = &cookies[0] {
            if !v.as_str().is_empty() {
                insert(&mut headers, "cookie", v.as_str());
            }
        }
    }
    insert(&mut headers, "x-forwarded-host", external.authority.as_str());
    insert(&mut headers, "x-forwarded-proto", external.scheme.as_str());
    insert(&mut headers, "x-forwarded-for", peer);
    let mut ws_key: Option<String> = None;
    if websocket {
        match find_socket_key(request, route.external.as_str()) {
            Ok(k) => {
                ws_key = Some(k);
            },
            Err(e) => return Err(e),
        }
        insert(&mut headers, "upgrade", "websocket");
        insert(&mut headers, "connection", "Upgrade");
    } else {
        remove(&mut headers, "sec-websocket-key");
        remove(&mut headers, "sec-websocket-version");
        remove(&mut headers, "sec-websocket-protocol");
        remove(&mut headers, "sec-websocket-extensions");
    }
    let offered = match single(&request.headers, "sec-websocket-protocol") {
        Ok(Some(v)) => v,
        Ok(None) => "".to_owned(),
        Err(e) => return Err(e),
    };
    if websocket && !empty {
        return Err(Error::bad("WebSocket handshake cannot carry a request body"));
    }
    Ok(Forwarded { headers, ws_key, offered })
}

/// The upstream URL of a path that is in its canonical form.
pub open spec fn upstream_check(route: RouteModel, path_query: Seq<char>) -> Result<
    Seq<char>,
    Failure,
> {
    match url_of(route.target.upstream + path_query) {
        None => Err(Failure::Bad("Invalid upstream path"@)),
        Some(u) => if u.fragment is Some || u.tail != path_query {
            Err(Failure::Bad("Proxy path is not canonical"@))
        } else {
            Ok(u.text)
        },
    }
}

pub fn upstream_url(route: &Route, path_query: &str) -> (r: Result<String, Error>)
    ensures
        agrees_with(r, upstream_check(route@, path_query@)),
{
    let text = concat(route.target.upstream.as_str(), path_query);
    match parse_url(text.as_str()) {
        None => Err(Error::bad("Invalid upstream path")),
        Some(u) => {
            if u.fragment.is_some() || !same(u.tail.as_str(), path_query) {
                Err(Error::bad("Proxy path is not canonical"))
            } else {
                Ok(u.text)
            }
        },
    }
}

/// The headers with a redirect to the upstream turned into one to the external origin.
pub open spec fn relocated(h: Seq<HeaderModel>, route: RouteModel) -> Result<Seq<HeaderModel>, Failure> {
    match single_value(h, "location"@) {
        Err(f) => Err(f),
        Ok(None) => Ok(h),
        Ok(Some(v)) => match url_of(v) {
            None => Ok(h),
            Some(u) => if u.origin == route.target.upstream {
                if header_value_text(route.external + u.tail) {
                    Ok(inserted(h, "location"@, route.external + u.tail))
                } else {
                    Err(Failure::Internal("Invalid redirect"@))
                }
            } else {
                Ok(h)
            },
        },
    }
}

/// The answer to a WebSocket key.
pub open spec fn accept_of(key: Seq<char>) -> Seq<char> {
    base64_of(sha1_of(encode_utf8(key + "258EAFA5-E914-47DA-95CA-C5AB0DC85B11"@)))
}

/// The application chose one of the protocols that the client offered.
pub open spec fn offered_one(selected: Seq<char>, offered: Seq<char>) -> bool {
    selected.len() > 0 && exists|i: int|
        0 <= i < parts(offered, ',').len() && trimmed(#[trigger] parts(offered, ',')[i]) == selected
}

pub open spec fn bad_upgrade(message: Seq<char>) -> Failure {
    Failure::Reply(502, "invalid_upgrade"@, message)
}

/// Whether the application's answer completes a WebSocket handshake.
pub open spec fn upgrade_check(
    status: u16,
    h: Seq<HeaderModel>,
    key: Seq<char>,
    offered: Seq<char>,
) -> Result<(), Failure> {
    let rejected = bad_upgrade("Application rejected the WebSocket handshake"@);
    let accept = single_value(h, "sec-websocket-accept"@);
    let upgrade = single_value(h, "upgrade"@);
    let protocol = single_value(h, "sec-websocket-protocol"@);
    if status != 101 {
        Err(rejected)
    } else if accept is Err {
        Err(accept->Err_0)
    } else if accept->Ok_0 != Some(accept_of(key)) {
        Err(rejected)
    } else if upgrade is Err {
        Err(upgrade->Err_0)
    } else if upgrade->Ok_0 is None || lower(upgrade->Ok_0->0) != lower("websocket"@) {
        Err(rejected)
    } else if protocol is Err {
        Err(protocol->Err_0)
    } else if protocol->Ok_0 is Some && !offered_one(protocol->Ok_0->0, offered) {
        Err(bad_upgrade("Application selected an unrequested WebSocket protocol"@))
    } else {
        Ok(())
    }
}

/// What the client is answered to the application's reply.
pub open spec fn reply_check(
    status: u16,
    h: Seq<HeaderModel>,
    route: RouteModel,
    sent: ForwardedModel,
) -> Result<Seq<HeaderModel>, Failure> {
    if cleaned(h) is Err {
        Err(cleaned(h)->Err_0)
    } else {
        match relocated(cleaned(h)->Ok_0, route) {
            Err(f) => Err(f),
            Ok(out) => match sent.ws_key {
                Some(key) => match upgrade_check(status, h, key, sent.offered) {
                    Err(f) => Err(f),
                    Ok(_) => Ok(
                        inserted(
                            inserted(out, "connection"@, "Upgrade"@),
                            "upgrade"@,
                            "websocket"@,
                        ),
                    ),
                },
                None => if status == 101 {
                    Err(bad_upgrade("Unexpected upstream upgrade"@))
                } else {
                    Ok(out)
                },
            },
        }
    }
}

fn is_offered(selected: &str, offered: &str) -> (r: bool)
    ensures
        r == offered_one(selected@, offered@),
{
    if selected.is_empty() {
        return false;
    }
    let list = split(offered, ',');
    let ghost all = texts(list@);
    let mut i: usize = 0;
    while i < list.len()
        invariant
            i <= list.len(),
            all == texts(list@),
            all == parts(offered@, ','),
            selected@.len() > 0,
            forall|j: int| 0 <= j < i ==> trimmed(#[trigger] all[j]) != selected@,
        decreases list.len() - i,
    {
        assert(all[i as int] == list@[i as int]@);
        let t = trim(list[i].as_str());
        if same(t.as_str(), selected) {
            return true;
        }
        i = i + 1;
    }
    false
}

fn check_upgrade(status: u16, headers: &Vec<Header>, key: &str, offered: &str) -> (r: Result<
    (),
    Error,
>)
    ensures
        agrees(r, upgrade_check(status, views(headers@), key@, offered@)),
{
    let text = concat(key, "258EAFA5-E914-47DA-95CA-C5AB0DC85B11");
    let hash = sha1(text.as_str().as_bytes());
    let expected = base64(hash.as_slice());
    if status != 101 {
        return Err(
            Error::reply(502, "invalid_upgrade", "Application rejected the WebSocket handshake"),
        );
    }
    match single(headers, "sec-websocket-accept") {
        Err(e) => return Err(e),
        Ok(v) => {
            if !opt_is(&v, expected.as_str()) {
                return Err(
                    Error::reply(
                        502,
                        "invalid_upgrade",
                        "Application rejected the WebSocket handshake",
                    ),
                );
            }
        },
    }
    let upgraded = match single(headers, "upgrade") {
        Err(e) => return Err(e),
        Ok(Some(v)) => same_ignoring_case(v.as_str(), "websocket"),
        Ok(None) => false,
    };
    if !upgraded {
        return Err(
            Error::reply(502, "invalid_upgrade", "Application rejected the WebSocket handshake"),
        );
    }
    match single(headers, "sec-websocket-protocol") {
        Err(e) => return Err(e),
        Ok(Some(selected)) => {
            if !is_offered(selected.as_str(), offered) {
                return Err(
                    Error::reply(
                        502,
                        "invalid_upgrade",
                        "Application selected an unrequested WebSocket protocol",
                    ),
                );
            }
        },
        Ok(None) => {},
    }
    Ok(())
}

/// The headers of the answer to the client, once the application replied with `status`.
pub fn answer(status: u16, headers: &Vec<Header>, route: &Route, sent: &Forwarded) -> (r: Result<
    Vec<Header>,
    Error,
>)
    ensures
        match reply_check(status, views(headers@), route@, sent@) {
            Ok(h) => r is Ok && views(r->Ok_0@) == h,
            Err(f) => fails(r, f),
        },
{
    let mut out = match clean(headers) {
        Ok(h) => h,
        Err(e) => return Err(e),
    };
    match single(&out, "location") {
        Err(e) => return Err(e),
        Ok(None) => {},
        Ok(Some(v)) => {
            if let Some(u) = parse_url(v.as_str()) {
                if same(u.origin.as_str(), route.target.upstream.as_str()) {
                    let to = concat(route.external.as_str(), u.tail.as_str());
                    if !header_value_ok(to.as_str()) {
                        return Err(Error::internal("Invalid redirect"));
                    }
                    insert(&mut out, "location", to.as_str());
                }
            }
        },
    }
    match &sent.ws_key {
        Some(key) => {
            if let Err(e) = check_upgrade(status, headers, key.as_str(), sent.offered.as_str()) {
                return Err(e);
            }
            insert(&mut out, "connection", "Upgrade");
            insert(&mut out, "upgrade", "websocket");
        },
        None => {
            if status == 101 {
                return Err(Error::reply(502, "invalid_upgrade", "Unexpected upstream upgrade"));
            }
        },
    }
    Ok(out)
}

/// What an application gets with a request: the identity that the provider gave, whose request it is, over
/// what, and for whom; and nothing that the client claimed of these, nor its credentials.
pub proof fn applications_are_told_who_asks(
    q: ProxyRequestModel,
    external: UrlModel,
    identity: Seq<HeaderModel>,
    peer: Seq<char>,
)
    requires
        cleaned(q.headers) is Ok,
    ensures
        ({
            let h = forwarded_headers(q, external, identity, peer);
            &&& header_values(h, "x-forwarded-for"@) == seq![Some(peer)]
            &&& header_values(h, "x-forwarded-proto"@) == seq![Some(external.scheme)]
            &&& header_values(h, "x-forwarded-host"@) == seq![Some(external.authority)]
        }),
{
    let base = without_forwarded(cleaned(q.headers)->Ok_0);
    let h0 = with_app_cookie(with_identity(base, identity), identity);
    let h1 = inserted(h0, "x-forwarded-host"@, external.authority);
    let h2 = inserted(h1, "x-forwarded-proto"@, external.scheme);
    reveal_strlit("x-forwarded-for");
    reveal_strlit("x-forwarded-proto");
    reveal_strlit("x-forwarded-host");
    assert("x-forwarded-for"@.len() == 15 && "x-forwarded-proto"@.len() == 17
        && "x-forwarded-host"@.len() == 16);
    a_header_that_is_set_has_one_value(
        h0,
        "x-forwarded-host"@,
        external.authority,
        "x-forwarded-for"@,
    );
    a_header_that_is_set_has_one_value(
        h1,
        "x-forwarded-proto"@,
        external.scheme,
        "x-forwarded-host"@,
    );
    a_header_that_is_set_has_one_value(h2, "x-forwarded-for"@, peer, "x-forwarded-host"@);
    a_header_that_is_set_has_one_value(h2, "x-forwarded-for"@, peer, "x-forwarded-proto"@);
}

/// A client's credentials for the proxy are not passed on.
pub proof fn credentials_are_not_passed_on(h: Seq<HeaderModel>)
    ensures
        header_values(without_forwarded(h), "authorization"@).len() == 0,
        header_values(without_forwarded(h), "cookie"@).len() == 0,
        header_values(without_forwarded(h), "x-original-url"@).len() == 0,
        header_values(without_forwarded(h), "forwarded"@).len() == 0,
        header_values(without_forwarded(h), "host"@).len() == 0,
        header_values(without_forwarded(h), "x-real-ip"@).len() == 0,
{
    reveal_strlit("host");
    reveal_strlit("authorization");
    reveal_strlit("cookie");
    reveal_strlit("forwarded");
    reveal_strlit("x-original-url");
    reveal_strlit("x-forwarded-for");
    reveal_strlit("x-forwarded-host");
    reveal_strlit("x-forwarded-proto");
    reveal_strlit("x-real-ip");
    assert("host"@.len() == 4 && "authorization"@.len() == 13 && "cookie"@.len() == 6
        && "forwarded"@.len() == 9 && "x-original-url"@.len() == 14 && "x-forwarded-for"@.len() == 15
        && "x-forwarded-host"@.len() == 16 && "x-forwarded-proto"@.len() == 17 && "x-real-ip"@.len()
        == 9);
    assert("forwarded"@[0] == 'f' && "x-real-ip"@[0] == 'x');
    let names = seq![
        "host"@,
        "authorization"@,
        "cookie"@,
        "forwarded"@,
        "x-original-url"@,
        "x-forwarded-for"@,
        "x-forwarded-host"@,
        "x-forwarded-proto"@,
        "x-real-ip"@,
    ];
    let h1 = removed(h, names[0]);
    let h2 = removed(h1, names[1]);
    let h3 = removed(h2, names[2]);
    let h4 = removed(h3, names[3]);
    let h5 = removed(h4, names[4]);
    let h6 = removed(h5, names[5]);
    let h7 = removed(h6, names[6]);
    let h8 = removed(h7, names[7]);
    assert(without_forwarded(h) == removed(h8, names[8]));
    assert forall|n: Seq<char>|
        n != "x-real-ip"@ && n != "x-forwarded-proto"@ && n != "x-forwarded-host"@ && n
            != "x-forwarded-for"@ implies #[trigger] header_values(without_forwarded(h), n)
        == header_values(h5, n) by {
        a_header_that_is_set_has_one_value(h8, names[8], n, n);
        a_header_that_is_set_has_one_value(h7, names[7], n, n);
        a_header_that_is_set_has_one_value(h6, names[6], n, n);
        a_header_that_is_set_has_one_value(h5, names[5], n, n);
    }
    a_header_that_is_set_has_one_value(h8, names[8], names[8], names[8]);
    a_header_that_is_set_has_one_value(h4, names[4], names[4], names[4]);
    a_header_that_is_set_has_one_value(h4, names[4], names[4], names[3]);
    a_header_that_is_set_has_one_value(h4, names[4], names[4], names[2]);
    a_header_that_is_set_has_one_value(h4, names[4], names[4], names[1]);
    a_header_that_is_set_has_one_value(h4, names[4], names[4], names[0]);
    a_header_that_is_set_has_one_value(h3, names[3], names[3], names[3]);
    a_header_that_is_set_has_one_value(h3, names[3], names[3], names[2]);
    a_header_that_is_set_has_one_value(h3, names[3], names[3], names[1]);
    a_header_that_is_set_has_one_value(h3, names[3], names[3], names[0]);
    a_header_that_is_set_has_one_value(h2, names[2], names[2], names[2]);
    a_header_that_is_set_has_one_value(h2, names[2], names[2], names[1]);
    a_header_that_is_set_has_one_value(h2, names[2], names[2], names[0]);
    a_header_that_is_set_has_one_value(h1, names[1], names[1], names[1]);
    a_header_that_is_set_has_one_value(h1, names[1], names[1], names[0]);
    a_header_that_is_set_has_one_value(h, names[0], names[0], names[0]);
}

/// A request goes to the application whose host it names, and to no other.
pub proof fn requests_go_to_the_host_they_name(
    q: ProxyRequestModel,
    routes: Map<Seq<char>, RouteModel>,
)
    ensures
        routed(q, routes) is Ok <==> {
            &&& !q.absolute && q.method != "CONNECT"@ && q.method != "TRACE"@
            &&& single_value(q.headers, "host"@) matches Ok(Some(host)) && routes.dom().contains(host)
        },
        routed(q, routes) matches Ok(r) ==> r == routes[(single_value(q.headers, "host"@)->Ok_0)->0],
{
}

/// Whoever writes does so from the application's own pages.
pub proof fn writes_come_from_the_application(q: ProxyRequestModel, external: Seq<char>)
    requires
        single_value(q.headers, "origin"@) is Ok,
        single_value(q.headers, "sec-fetch-site"@) is Ok,
    ensures
        write_guard(q, external) is Ok <==> {
            let o = single_value(q.headers, "origin"@)->Ok_0;
            let s = single_value(q.headers, "sec-fetch-site"@)->Ok_0;
            ||| q.method == "GET"@ || q.method == "HEAD"@ || q.method == "OPTIONS"@
            ||| (o is None || o == Some(external)) && (s is None || s == Some("same-origin"@) || s
                == Some("none"@))
        },
{
}

/// A redirect of the application to itself becomes one to its outside address; any other stays.
pub proof fn own_redirects_are_rewritten(h: Seq<HeaderModel>, route: RouteModel, v: Seq<char>)
    requires
        single_value(h, "location"@) == Ok::<Option<Seq<char>>, Failure>(Some(v)),
        url_of(v) is Some,
        header_value_text(route.external + (url_of(v)->0).tail),
    ensures
        relocated(h, route) is Ok,
        (url_of(v)->0).origin == route.target.upstream ==> header_values(
            relocated(h, route)->Ok_0,
            "location"@,
        ) == seq![Some(route.external + (url_of(v)->0).tail)],
        (url_of(v)->0).origin != route.target.upstream ==> relocated(h, route)->Ok_0 == h,
{
    a_header_that_is_set_has_one_value(
        h,
        "location"@,
        route.external + (url_of(v)->0).tail,
        "location"@,
    );
}

/// A socket is opened only where the application answers the key that was sent, and with a protocol that
/// was offered.
pub proof fn sockets_are_opened_by_both_sides(
    status: u16,
    h: Seq<HeaderModel>,
    key: Seq<char>,
    offered: Seq<char>,
)
    requires
        upgrade_check(status, h, key, offered) is Ok,
    ensures
        status == 101,
        single_value(h, "sec-websocket-accept"@) == Ok::<Option<Seq<char>>, Failure>(
            Some(
                base64_of(sha1_of(encode_utf8(key + "258EAFA5-E914-47DA-95CA-C5AB0DC85B11"@))),
            ),
        ),
        single_value(h, "upgrade"@) matches Ok(Some(u)) && lower(u) == lower("websocket"@),
        single_value(h, "sec-websocket-protocol"@) matches Ok(Some(p)) ==> exists|i: int|
            0 <= i < parts(offered, ',').len() && trimmed(#[trigger] parts(offered, ',')[i]) == p,
{
}

/// Where a request is for the application, it is sent to it; where it is for the provider's own pages
/// below it, those answer, at the application's own address.
pub proof fn requests_are_dispatched_by_their_path(
    q: ProxyRequestModel,
    route: RouteModel,
    s: SettingsModel,
)
    requires
        dispatched(q, route, s) is Ok,
    ensures
        match dispatched(q, route, s)->Ok_0 {
            DispatchModel::Application(url) => !has_prefix(q.path, "/outpost/"@) && url
                == route.external + q.path_query,
            DispatchModel::Outpost(action) => has_prefix(
                q.path,
                "/outpost/"@ + route.target.client_id + "/"@,
            ) && q.path == "/outpost/"@ + route.target.client_id + "/"@ + action,
            DispatchModel::Redirect(url) => url == s.external_origin + q.path_query && route.external
                != s.external_origin && has_prefix(
                q.path,
                "/outpost/"@ + route.target.client_id + "/"@,
            ),
        },
{
    let prefix = "/outpost/"@ + route.target.client_id + "/"@;
    if has_prefix(q.path, prefix) {
        assert(q.path =~= prefix + q.path.skip(prefix.len() as int));
    }
}

/// A reply that opens no socket is passed on as it is, cleaned, and never as an upgrade.
pub proof fn plain_replies_are_passed_on(
    status: u16,
    h: Seq<HeaderModel>,
    route: RouteModel,
    sent: ForwardedModel,
)
    requires
        sent.ws_key is None,
        cleaned(h) is Ok,
        header_values(cleaned(h)->Ok_0, "location"@).len() == 0,
    ensures
        reply_check(status, h, route, sent) is Ok <==> status != 101,
        reply_check(status, h, route, sent) matches Ok(out) ==> out == cleaned(h)->Ok_0,
{
}

/// A route leads from an exact address of its own to an upstream that is encrypted, local, or expressly
/// allowed to be neither.
pub proof fn routes_lead_to_safe_upstreams(
    external: Seq<char>,
    target: TargetModel,
    tls: bool,
    before: Set<Seq<char>>,
    rules: RulesModel,
)
    ensures
        route_check(external, target, tls, before, rules) is Ok <==> {
            let u = url_of(external)->0;
            let up = origin_url(target.upstream)->Ok_0;
            &&& rules.server_urls.contains(external)
            &&& url_of(external) is Some
            &&& u.origin == external
            &&& !before.contains(u.authority)
            &&& tls ==> u.scheme == "https"@
            &&& !rules.bad_names.contains(target.client_id)
            &&& origin_url(target.upstream) is Ok
            &&& up.scheme == "http"@ ==> target.ca_file is None && (target.allow_plain_http || loopback(
                up.host,
            ))
        },
{
}

/// A proxy has routes, a limit on bodies and on waiting, and a certificate unless it is local.
pub proof fn proxies_are_bounded(l: ListenerModel, rules: RulesModel)
    ensures
        listener_check(l, rules) is Ok <==> {
            &&& 1 <= l.routes.dom().len() <= 64
            &&& 1 <= l.max_body_bytes <= 67_108_864
            &&& 1 <= l.upstream_timeout_seconds <= 300
            &&& l.tls_cert_file is Some <==> l.tls_key_file is Some
            &&& l.tls_cert_file is None ==> l.loopback
            &&& routes_check(in_order(l.routes.dom()), l.routes, l.tls_cert_file is Some, rules) is Ok
        },
{
}

/// Every route is checked, against those before it.
pub proof fn every_route_is_checked(
    keys: Seq<Seq<char>>,
    routes: Map<Seq<char>, TargetModel>,
    tls: bool,
    rules: RulesModel,
    i: int,
)
    requires
        routes_check(keys, routes, tls, rules) is Ok,
        0 <= i < keys.len(),
    ensures
        route_check(keys[i], routes[keys[i]], tls, authorities(keys.take(i)), rules) is Ok,
    decreases keys.len(),
{
    let d = keys.drop_last();
    if i < d.len() {
        every_route_is_checked(d, routes, tls, rules, i);
        assert(d[i] == keys[i]);
        assert(d.take(i) =~= keys.take(i));
    } else {
        assert(keys.take(i) =~= d);
        assert(keys.last() == keys[i]);
    }
}

/// A socket is asked for by a read from the application itself, in the version that is spoken, with a
/// key of sixteen bytes.
pub proof fn sockets_are_asked_for_properly(q: ProxyRequestModel, external: Seq<char>)
    requires
        socket_key(q, external) is Ok,
    ensures
        q.method == "GET"@,
        single_value(q.headers, "upgrade"@) matches Ok(Some(v)) && lower(v) == lower("websocket"@),
        single_value(q.headers, "sec-websocket-version"@) == Ok::<Option<Seq<char>>, Failure>(Some("13"@)),
        single_value(q.headers, "origin"@) == Ok::<Option<Seq<char>>, Failure>(Some(external)),
        single_value(q.headers, "sec-websocket-key"@) == Ok::<Option<Seq<char>>, Failure>(
            Some(socket_key(q, external)->Ok_0),
        ),
        base64_bytes(socket_key(q, external)->Ok_0) matches Some(b) && b.len() == 16,
{
}

/// A reader who is not signed in is sent to sign in; a write or a socket is refused instead.
pub proof fn only_readers_are_sent_to_sign_in(error: Failure, method: Seq<char>, websocket: bool)
    ensures
        starts_login(error, method, websocket) <==> status_of(error) == 401 && !(error is Oauth) && (method
            == "GET"@ || method == "HEAD"@) && !websocket,
{
}

/// A request goes to the upstream under the path that was asked for, if that path is canonical.
pub proof fn upstreams_get_the_path_as_asked(route: RouteModel, path_query: Seq<char>)
    ensures
        upstream_check(route, path_query) is Ok <==> {
            let u = url_of(route.target.upstream + path_query)->0;
            &&& url_of(route.target.upstream + path_query) is Some
            &&& u.fragment is None
            &&& u.tail == path_query
        },
        upstream_check(route, path_query) matches Ok(text) ==> text == (url_of(
            route.target.upstream + path_query,
        )->0).text,
{
}

/// What concerns one connection only stays behind, with what the connection names, what tells of an
/// identity and what sets a cookie of ours; every other header passes.
pub proof fn ordinary_headers_pass(h: Seq<HeaderModel>, x: HeaderModel)
    requires
        cleaned(h) is Ok,
    ensures
        ({
            let named = connection_names(header_values(h, "connection"@))->Ok_0;
            &&& cleaned(h)->Ok_0.contains(x) ==> h.contains(x)
            &&& x.name == "connection"@ || x.name == "keep-alive"@ || x.name == "proxy-authenticate"@ || x.name
                == "proxy-authorization"@ || x.name == "te"@ || x.name == "trailer"@ || x.name
                == "transfer-encoding"@ || x.name == "upgrade"@ || x.name == "content-length"@
                ==> !cleaned(h)->Ok_0.contains(x)
            &&& named.contains(x.name) ==> !cleaned(h)->Ok_0.contains(x)
            &&& has_prefix(x.name, "x-authentik-"@) || has_prefix(x.name, "x-auth-"@) || has_prefix(
                x.name,
                "x-riauth-"@,
            ) ==> !cleaned(h)->Ok_0.contains(x)
            &&& h.contains(x) && x.name == "accept"@ && !named.contains("accept"@) ==> cleaned(
                h,
            )->Ok_0.contains(x)
            &&& h.contains(x) && !(x.name == "connection"@ || x.name == "keep-alive"@ || x.name
                == "proxy-authenticate"@ || x.name == "proxy-authorization"@ || x.name == "te"@ || x.name
                == "trailer"@ || x.name == "transfer-encoding"@ || x.name == "upgrade"@ || x.name
                == "content-length"@) && !named.contains(x.name) && !is_identity_header(x.name)
                && !sets_private_cookie(x) ==> cleaned(h)->Ok_0.contains(x)
        }),
{
    let named = connection_names(header_values(h, "connection"@))->Ok_0;
    let p = passes(named);
    let out = h.filter(p);
    if out.contains(x) {
        h.lemma_filter_contains_rev(p, x);
        h.lemma_filter_pred(p, out.index_of(x));
        assert(p(x));
    }
    if h.contains(x) && p(x) {
        h.lemma_filter_contains(p, h.index_of(x));
    }
    if x.name == "accept"@ {
        reveal_strlit("accept");
        reveal_strlit("connection");
        reveal_strlit("keep-alive");
        reveal_strlit("proxy-authenticate");
        reveal_strlit("proxy-authorization");
        reveal_strlit("te");
        reveal_strlit("trailer");
        reveal_strlit("transfer-encoding");
        reveal_strlit("upgrade");
        reveal_strlit("content-length");
        reveal_strlit("x-authentik-");
        reveal_strlit("x-auth-");
        reveal_strlit("x-riauth-");
        reveal_strlit("set-cookie");
        assert("accept"@[0] == 'a' && "connection"@[0] == 'c' && "keep-alive"@[0] == 'k'
            && "proxy-authenticate"@[0] == 'p' && "proxy-authorization"@[0] == 'p' && "te"@[0] == 't'
            && "trailer"@[0] == 't' && "transfer-encoding"@[0] == 't' && "upgrade"@[0] == 'u'
            && "content-length"@[0] == 'c' && "set-cookie"@[0] == 's');
        ends_are_told_by_their_characters(x.name, "x-authentik-"@);
        ends_are_told_by_their_characters(x.name, "x-auth-"@);
        ends_are_told_by_their_characters(x.name, "x-riauth-"@);
        assert("x-authentik-"@[0] == 'x' && "x-auth-"@[0] == 'x' && "x-riauth-"@[0] == 'x');
        assert(!has_prefix(x.name, "x-authentik-"@));
        assert(!has_prefix(x.name, "x-auth-"@));
        assert(!has_prefix(x.name, "x-riauth-"@));
    }
}

} // verus!
