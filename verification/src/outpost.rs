//! Browser SSO for forward-auth proxies. Cookies contain opaque references, never OAuth tokens.
pub mod forward;

use crate::browser::{BrowserReply, BrowserReplyModel, body_model, body_reply, redirect_model, redirect_reply};
use crate::engine::{ConfigModel, Core, audit, audited, drawn, earlier, extended, next_id};
use crate::error::{Error, Failure, agrees, agrees_with, and_also, each, fails, lemma_each_fails};
use crate::headers::{Header, HeaderModel, all_values, has_header, header_value_ok, header_value_text, header_values, one, one_value, opt_texts};
use crate::issuer::issuer_of;
use crate::json::{Json, JsonModel};
use crate::model::{Client, ClientModel, GrantModel, Identity, IdentityModel, User, UserModel, is_confidential};
use crate::names::{Names, in_order};
use crate::oidc::{active_client, family_revoked, get_client, revoke_family};
use crate::outside::{UrlModel, append_query, digest, digest_of, pair_texts, parse_url, registrable, registrable_domain, url_of, url_with_pairs};
use crate::provider::{grant_allowed, grant_check};
use crate::rules::{Rules, RulesModel};
use crate::store::{Tx, TxModel};
use crate::table::{Row, Table, position, purges_leave_what_does_not_match, views, without};
use crate::text::{among, byte_count, byte_len, chars_of, concat, concat3, contains_text, decimal, decimal_text, ends_with, first_at, has_char, has_control, has_prefix, has_suffix, join, joined, occurs_at, opt_is, opt_text, parts, same, slice_of, some_control, split, split_once, starts_with, texts, trim, trim_end_char, trim_end_of, trimmed};
use vstd::prelude::*;
use vstd::string::*;

verus! {

/// How a proxied application is reached.
pub struct Settings {
    pub domain: Option<Domain>,
    pub external_origin: String,
    pub session_ttl: u64,
}

/// What a [`Settings`] holds.
pub struct SettingsModel {
    pub domain: Option<DomainModel>,
    pub external_origin: Seq<char>,
    pub session_ttl: u64,
}

impl View for Settings {
    type V = SettingsModel;

    open spec fn view(&self) -> SettingsModel {
        SettingsModel {
            domain: crate::table::opt_view(self.domain),
            external_origin: self.external_origin@,
            session_ttl: self.session_ttl,
        }
    }
}

impl Row for Settings {
    fn dup(&self) -> (r: Self) {
        Settings {
            domain: crate::table::dup_opt(&self.domain),
            external_origin: self.external_origin.clone(),
            session_ttl: self.session_ttl,
        }
    }
}

/// Several applications under one cookie domain.
pub struct Domain {
    pub cookie_domain: String,
    pub application_origins: Names,
}

/// What a [`Domain`] holds.
pub struct DomainModel {
    pub cookie_domain: Seq<char>,
    pub application_origins: Set<Seq<char>>,
}

impl View for Domain {
    type V = DomainModel;

    open spec fn view(&self) -> DomainModel {
        DomainModel {
            cookie_domain: self.cookie_domain@,
            application_origins: self.application_origins@,
        }
    }
}

impl Row for Domain {
    fn dup(&self) -> (r: Self) {
        Domain {
            cookie_domain: self.cookie_domain.clone(),
            application_origins: self.application_origins.copy(),
        }
    }
}

/// The lifetime of a proxy session in seconds where none is configured.
pub fn default_ttl() -> (r: u64)
    ensures
        r == 3600,
{
    3600
}

/// The name of the cookie that holds a proxy session, or the browser binding of a login.
pub open spec fn plain_cookie_name(id: Seq<char>, binding: bool, secure: bool) -> Seq<char> {
    (if secure {
        "__Host-"@
    } else {
        ""@
    }) + "riauth_"@ + (if binding {
        "bind"@
    } else {
        "proxy"@
    }) + "_"@ + digest_of(id).take(16)
}

pub fn cookie_name(id: &str, binding: bool, secure: bool) -> (r: String)
    ensures
        r@ == plain_cookie_name(id@, binding, secure),
{
    let hash = digest(id);
    let chars = chars_of(hash.as_str());
    let short = slice_of(&chars, 0, 16);
    proof {
        assert(digest_of(id@).take(16) =~= hash@.subrange(0, 16));
    }
    let mut r = concat3(
        if secure {
            "__Host-"
        } else {
            ""
        },
        "riauth_",
        if binding {
            "bind"
        } else {
            "proxy"
        },
    );
    r.append("_");
    r.append(short.as_str());
    r
}

/// Where the provider sends the browser back to.
pub open spec fn callback_url(s: SettingsModel, id: Seq<char>) -> Seq<char> {
    s.external_origin + "/outpost/"@ + id + "/callback"@
}

/// The origin is under the cookie domain.
pub open spec fn under_domain(origin: Seq<char>, u: UrlModel, parent: Seq<char>) -> bool {
    &&& u.scheme == "https"@
    &&& u.origin == origin
    &&& u.host is Some && (u.host == Some(parent) || has_suffix(u.host->0, "."@ + parent))
}

pub open spec fn domain_origin_check(
    origin: Seq<char>,
    parent: Seq<char>,
    rules: RulesModel,
) -> Result<(), Failure> {
    if !rules.server_urls.contains(origin) || url_of(origin) is None {
        Err(Failure::Bad("Invalid domain proxy origin"@))
    } else if !under_domain(origin, url_of(origin)->0, parent) {
        Err(
            Failure::Bad(
                "Shared proxy origins must be exact HTTPS origins under the cookie domain"@,
            ),
        )
    } else {
        Ok(())
    }
}

pub open spec fn domain_origin_rule(parent: Seq<char>, rules: RulesModel) -> spec_fn(
    Seq<char>,
) -> Result<(), Failure> {
    |o: Seq<char>| domain_origin_check(o, parent, rules)
}

pub open spec fn domain_check(
    d: DomainModel,
    external_origin: Seq<char>,
    rules: RulesModel,
) -> Result<(), Failure> {
    let parent = d.cookie_domain;
    match url_of("https://"@ + parent) {
        None => Err(Failure::Bad("Invalid proxy cookie domain"@)),
        Some(u) => if u.host != Some(parent) || registrable(parent) != Some(parent) || has_prefix(
            parent,
            "."@,
        ) || d.application_origins.len() == 0 || d.application_origins.len() > 32 {
            Err(
                Failure::Bad(
                    "Shared proxy cookie domain must be a canonical registrable domain with 1..32 exact application origins"@,
                ),
            )
        } else {
            and_also(
                each(in_order(d.application_origins), domain_origin_rule(parent, rules)),
                domain_origin_check(external_origin, parent, rules),
            )
        },
    }
}

/// A public web client that uses the code flow, with the exact callback.
pub open spec fn embeddable(s: SettingsModel, c: ClientModel) -> bool {
    &&& !is_confidential(c)
    &&& !c.service
    &&& !c.settings.native
    &&& c.scopes.contains("openid"@)
    &&& c.scopes.contains("profile"@)
    &&& c.redirect_uris.contains(callback_url(s, c.id))
    &&& !c.settings.dpop_bound_access_tokens
    &&& !c.settings.require_signed_request
    &&& !c.settings.require_pushed_authorization_requests
}

pub open spec fn settings_check(
    s: SettingsModel,
    c: ClientModel,
    rules: RulesModel,
) -> Result<(), Failure> {
    if !rules.server_urls.contains(s.external_origin) || url_of(s.external_origin) is None {
        Err(Failure::Bad("Proxy origin requires canonical HTTPS or HTTP loopback"@))
    } else if (url_of(s.external_origin)->0).origin != s.external_origin || !(60 <= s.session_ttl
        <= 86400) {
        Err(
            Failure::Bad(
                "Proxy external_origin must be an exact origin without a path; TTL is 60..86400 seconds"@,
            ),
        )
    } else {
        and_also(
            match s.domain {
                Some(d) => domain_check(d, s.external_origin, rules),
                None => Ok(()),
            },
            if !embeddable(s, c) {
                Err(
                    Failure::Bad(
                        "Embedded proxy SSO requires a public web code/PKCE client with openid/profile scopes, its exact callback, and no mandatory DPoP, PAR or JAR"@,
                    ),
                )
            } else {
                grant_check(c, "authorization_code"@)
            },
        )
    }
}

fn check_domain_origin(origin: &str, parent: &str, rules: &Rules) -> (r: Result<(), Error>)
    ensures
        agrees(r, domain_origin_check(origin@, parent@, rules@)),
{
    if !rules.server_urls.contains(origin) {
        return Err(Error::bad("Invalid domain proxy origin"));
    }
    match parse_url(origin) {
        None => Err(Error::bad("Invalid domain proxy origin")),
        Some(u) => {
            let dotted = concat(".", parent);
            let inside = match &u.host {
                Some(h) => same(h.as_str(), parent) || ends_with(h.as_str(), dotted.as_str()),
                None => false,
            };
            if !same(u.scheme.as_str(), "https") || !same(u.origin.as_str(), origin) || !inside {
                Err(
                    Error::bad(
                        "Shared proxy origins must be exact HTTPS origins under the cookie domain",
                    ),
                )
            } else {
                Ok(())
            }
        },
    }
}

#[verifier::loop_isolation(false)]
fn check_domain(d: &Domain, external_origin: &str, rules: &Rules) -> (r: Result<(), Error>)
    ensures
        agrees(r, domain_check(d@, external_origin@, rules@)),
{
    let parent = d.cookie_domain.as_str();
    let text = concat("https://", parent);
    match parse_url(text.as_str()) {
        None => {
            return Err(Error::bad("Invalid proxy cookie domain"));
        },
        Some(u) => {
            let registered = registrable_domain(parent);
            if !opt_is(&u.host, parent) || !opt_is(&registered, parent) || starts_with(parent, ".")
                || d.application_origins.is_empty() || d.application_origins.len() > 32 {
                return Err(
                    Error::bad(
                        "Shared proxy cookie domain must be a canonical registrable domain with 1..32 exact application origins",
                    ),
                );
            }
        },
    }
    let ghost all = in_order(d.application_origins@);
    let ghost f = domain_origin_rule(parent@, rules@);
    let n: usize = d.application_origins.len();
    let mut i: usize = 0;
    while i < n
        invariant
            i <= n,
            each(all.take(i as int), f) is Ok,
        decreases n - i,
    {
        proof {
            assert(all.take(i + 1).drop_last() =~= all.take(i as int));
            if each(all.take(i + 1), f) is Err {
                lemma_each_fails(all, f, i + 1);
            }
        }
        if let Err(e) = check_domain_origin(d.application_origins.at(i).as_str(), parent, rules) {
            return Err(e);
        }
        i = i + 1;
    }
    assert(all.take(i as int) =~= all);
    check_domain_origin(external_origin, parent, rules)
}

impl Settings {
    pub fn callback(&self, id: &str) -> (r: String)
        ensures
            r@ == callback_url(self@, id@),
    {
        let mut r = concat3(self.external_origin.as_str(), "/outpost/", id);
        r.append("/callback");
        r
    }

    pub fn validate(&self, client: &Client, rules: &Rules) -> (r: Result<(), Error>)
        ensures
            agrees(r, settings_check(self@, client@, rules@)),
    {
        let own = self.external_origin.as_str();
        if !rules.server_urls.contains(own) {
            return Err(Error::bad("Proxy origin requires canonical HTTPS or HTTP loopback"));
        }
        match parse_url(own) {
            None => {
                return Err(Error::bad("Proxy origin requires canonical HTTPS or HTTP loopback"));
            },
            Some(u) => {
                if !same(u.origin.as_str(), own) || self.session_ttl < 60 || self.session_ttl > 86400 {
                    return Err(
                        Error::bad(
                            "Proxy external_origin must be an exact origin without a path; TTL is 60..86400 seconds",
                        ),
                    );
                }
            },
        }
        if let Some(d) = &self.domain {
            if let Err(e) = check_domain(d, own, rules) {
                return Err(e);
            }
        }
        let callback = self.callback(client.id.as_str());
        if client.confidential() || client.service || client.settings.native
            || !client.scopes.contains("openid") || !client.scopes.contains("profile") || !among(
            callback.as_str(),
            &client.redirect_uris,
        ) || client.settings.dpop_bound_access_tokens || client.settings.require_signed_request
            || client.settings.require_pushed_authorization_requests {
            return Err(
                Error::bad(
                    "Embedded proxy SSO requires a public web code/PKCE client with openid/profile scopes, its exact callback, and no mandatory DPoP, PAR or JAR",
                ),
            );
        }
        grant_allowed(client, "authorization_code")
    }
}

/// A started login of a browser.
pub struct Pending {
    pub client_id: String,
    pub fingerprint: String,
    pub browser_hash: String,
    pub verifier: String,
    pub nonce: String,
    pub return_to: String,
    pub expires_at: u64,
    pub claimed: bool,
}

/// What a [`Pending`] holds.
pub struct PendingModel {
    pub client_id: Seq<char>,
    pub fingerprint: Seq<char>,
    pub browser_hash: Seq<char>,
    pub verifier: Seq<char>,
    pub nonce: Seq<char>,
    pub return_to: Seq<char>,
    pub expires_at: u64,
    pub claimed: bool,
}

impl View for Pending {
    type V = PendingModel;

    open spec fn view(&self) -> PendingModel {
        PendingModel {
            client_id: self.client_id@,
            fingerprint: self.fingerprint@,
            browser_hash: self.browser_hash@,
            verifier: self.verifier@,
            nonce: self.nonce@,
            return_to: self.return_to@,
            expires_at: self.expires_at,
            claimed: self.claimed,
        }
    }
}

impl Row for Pending {
    fn dup(&self) -> (r: Self) {
        Pending {
            client_id: self.client_id.clone(),
            fingerprint: self.fingerprint.clone(),
            browser_hash: self.browser_hash.clone(),
            verifier: self.verifier.clone(),
            nonce: self.nonce.clone(),
            return_to: self.return_to.clone(),
            expires_at: self.expires_at,
            claimed: self.claimed,
        }
    }
}

/// A browser's session at a proxied application. It follows the login session that it came from.
pub struct ProxySession {
    pub client_id: String,
    pub fingerprint: String,
    pub identity: Identity,
    pub expires_at: u64,
}

/// What a [`ProxySession`] holds.
pub struct ProxySessionModel {
    pub client_id: Seq<char>,
    pub fingerprint: Seq<char>,
    pub identity: IdentityModel,
    pub expires_at: u64,
}

impl View for ProxySession {
    type V = ProxySessionModel;

    open spec fn view(&self) -> ProxySessionModel {
        ProxySessionModel {
            client_id: self.client_id@,
            fingerprint: self.fingerprint@,
            identity: self.identity@,
            expires_at: self.expires_at,
        }
    }
}

impl Row for ProxySession {
    fn dup(&self) -> (r: Self) {
        ProxySession {
            client_id: self.client_id.clone(),
            fingerprint: self.fingerprint.clone(),
            identity: self.identity.dup(),
            expires_at: self.expires_at,
        }
    }
}

/// The origin is one of the application's.
pub open spec fn own_origin(s: SettingsModel, origin: Seq<char>) -> bool {
    origin == s.external_origin || (s.domain matches Some(d) && d.application_origins.contains(origin))
}

/// The URL that the browser returns to, or why it cannot.
pub open spec fn target_check(s: SettingsModel, value: Seq<char>) -> Result<Seq<char>, Failure> {
    if byte_count(value) > 8192 || some_control(value) || value.contains('\\') {
        Err(Failure::Bad("Invalid proxy return URL"@))
    } else {
        match url_of(value) {
            None => Err(Failure::Bad("An absolute proxy return URL is required"@)),
            Some(u) => if !own_origin(s, u.origin) || u.username.len() > 0 || u.password is Some
                || u.fragment is Some || has_prefix(u.path, "/outpost/"@) {
                Err(
                    Failure::Bad(
                        "Proxy return URL must belong to its configured application and avoid reserved outpost paths"@,
                    ),
                )
            } else {
                Ok(u.text)
            },
        }
    }
}

/// The application is served over HTTPS.
pub open spec fn secure(s: SettingsModel) -> bool {
    has_prefix(s.external_origin, "https://"@)
}

/// The name of the application's cookie. A cookie that several hosts share cannot be host-bound.
pub open spec fn app_cookie_name(s: SettingsModel, id: Seq<char>, binding: bool) -> Seq<char> {
    if !binding && s.domain is Some && secure(s) {
        "__Secure-"@ + plain_cookie_name(id, binding, false)
    } else {
        plain_cookie_name(id, binding, secure(s))
    }
}

/// The cookie that stores `value` for `ttl` seconds.
pub open spec fn cookie_text(
    s: SettingsModel,
    id: Seq<char>,
    binding: bool,
    value: Seq<char>,
    ttl: u64,
) -> Seq<char> {
    app_cookie_name(s, id, binding) + "="@ + value + "; Path=/; HttpOnly; SameSite=Lax; Max-Age="@
        + decimal(ttl as nat) + (if secure(s) {
        "; Secure"@
    } else {
        ""@
    }) + (if !binding && s.domain is Some {
        "; Domain="@ + (s.domain->0).cookie_domain
    } else {
        ""@
    })
}

impl Settings {
    pub fn allows_origin(&self, origin: &str) -> (r: bool)
        ensures
            r == own_origin(self@, origin@),
    {
        if same(origin, self.external_origin.as_str()) {
            return true;
        }
        match &self.domain {
            Some(d) => d.application_origins.contains(origin),
            None => false,
        }
    }

    pub fn target(&self, value: &str) -> (r: Result<String, Error>)
        ensures
            agrees_with(r, target_check(self@, value@)),
    {
        if byte_len(value) > 8192 || has_control(value) || has_char(value, '\\') {
            return Err(Error::bad("Invalid proxy return URL"));
        }
        match parse_url(value) {
            None => Err(Error::bad("An absolute proxy return URL is required")),
            Some(u) => {
                if !self.allows_origin(u.origin.as_str()) || !u.username.as_str().is_empty()
                    || u.password.is_some() || u.fragment.is_some() || starts_with(
                    u.path.as_str(),
                    "/outpost/",
                ) {
                    Err(
                        Error::bad(
                            "Proxy return URL must belong to its configured application and avoid reserved outpost paths",
                        ),
                    )
                } else {
                    Ok(u.text)
                }
            },
        }
    }

    pub fn cookie_name(&self, id: &str, binding: bool) -> (r: String)
        ensures
            r@ == app_cookie_name(self@, id@, binding),
    {
        let https = starts_with(self.external_origin.as_str(), "https://");
        if !binding && self.domain.is_some() && https {
            let plain = cookie_name(id, binding, false);
            concat("__Secure-", plain.as_str())
        } else {
            cookie_name(id, binding, https)
        }
    }

    pub fn cookie(&self, id: &str, binding: bool, value: &str, ttl: u64) -> (r: String)
        ensures
            r@ == cookie_text(self@, id@, binding, value@, ttl),
    {
        let mut r = self.cookie_name(id, binding);
        r.append("=");
        r.append(value);
        r.append("; Path=/; HttpOnly; SameSite=Lax; Max-Age=");
        let n = decimal_text(ttl);
        r.append(n.as_str());
        if starts_with(self.external_origin.as_str(), "https://") {
            r.append("; Secure");
        } else {
            r.append("");
        }
        match &self.domain {
            Some(d) => {
                if !binding {
                    let t = concat("; Domain=", d.cookie_domain.as_str());
                    r.append(t.as_str());
                } else {
                    r.append("");
                }
            },
            None => {
                r.append("");
            },
        }
        r
    }
}

/// The enabled proxy client with this id and its settings, or why it is not served.
pub open spec fn proxy_client(t: TxModel, id: Seq<char>, rules: RulesModel) -> Result<
    (ClientModel, SettingsModel),
    Failure,
> {
    if !active_client(t, id) || t.clients[id].settings.proxy is None {
        Err(Failure::Forbidden)
    } else {
        let c = t.clients[id];
        match settings_check(c.settings.proxy->0, c, rules) {
            Err(f) => Err(f),
            Ok(_) => Ok((c, c.settings.proxy->0)),
        }
    }
}

pub fn client(tx: &Tx, id: &str, rules: &Rules) -> (r: Result<(Client, Settings), Error>)
    ensures
        match proxy_client(tx@, id@, rules@) {
            Ok(p) => r is Ok && (r->Ok_0).0@ == p.0 && (r->Ok_0).1@ == p.1,
            Err(f) => fails(r, f),
        },
{
    let c = match get_client(tx, id) {
        Ok(c) => c,
        Err(_) => return Err(Error::Forbidden),
    };
    let settings = match &c.settings.proxy {
        Some(s) => s.dup(),
        None => return Err(Error::Forbidden),
    };
    if let Err(e) = settings.validate(&c, rules) {
        return Err(e);
    }
    Ok((c, settings))
}

/// The scopes that a proxy login asks for.
pub open spec fn proxy_scope(s: Seq<char>) -> bool {
    s == "openid"@ || s == "profile"@ || s == "email"@ || s == "groups"@
}

pub open spec fn proxy_scopes(c: ClientModel) -> Seq<Seq<char>> {
    in_order(c.scopes).filter(|s: Seq<char>| proxy_scope(s))
}

#[verifier::loop_isolation(false)]
fn list_scopes(client: &Client) -> (r: Vec<String>)
    ensures
        texts(r@) == proxy_scopes(client@),
{
    let ghost all = in_order(client@.scopes);
    let ghost p = |s: Seq<char>| proxy_scope(s);
    let n: usize = client.scopes.len();
    let mut r: Vec<String> = Vec::new();
    let mut i: usize = 0;
    assert(texts(r@) =~= all.take(0).filter(p));
    while i < n
        invariant
            i <= n,
            texts(r@) == all.take(i as int).filter(p),
        decreases n - i,
    {
        let s = client.scopes.at(i);
        let ghost was = texts(r@);
        proof {
            assert(all.take(i + 1) =~= all.take(i as int).push(s@));
            all.take(i as int).lemma_filter_push(s@, p);
        }
        if same(s.as_str(), "openid") || same(s.as_str(), "profile") || same(s.as_str(), "email")
            || same(s.as_str(), "groups") {
            r.push(s.clone());
            assert(texts(r@) =~= was.push(s@));
        }
        i = i + 1;
    }
    assert(all.take(i as int) =~= all);
    r
}

/// The authorization request that a proxy login makes.
pub open spec fn login_pairs(
    c: ClientModel,
    s: SettingsModel,
    id: Seq<char>,
    state: Seq<char>,
    nonce: Seq<char>,
    verifier: Seq<char>,
) -> Seq<(Seq<char>, Seq<char>)> {
    seq![
        ("response_type"@, "code"@),
        ("response_mode"@, "query"@),
        ("client_id"@, id),
        ("redirect_uri"@, callback_url(s, id)),
        ("scope"@, joined(proxy_scopes(c), " "@)),
        ("state"@, state),
        ("nonce"@, nonce),
        ("code_challenge"@, digest_of(verifier)),
        ("code_challenge_method"@, "S256"@),
    ]
}

fn pair(key: &str, value: &str) -> (r: (String, String))
    ensures
        r.0@ == key@ && r.1@ == value@,
{
    (key.to_owned(), value.to_owned())
}

/// Where authorization requests are sent.
pub open spec fn authorize_url(cfg: ConfigModel) -> Seq<char> {
    trim_end_char(cfg.issuer, '/') + "/oauth/authorize"@
}

/// What starting a proxy login leaves in the store and answers: the browser is bound by a cookie
/// and sent to the provider.
pub open spec fn started(
    t: TxModel,
    cfg: ConfigModel,
    id: Seq<char>,
    trusted: bool,
    return_to: Seq<char>,
    fingerprint: Seq<char>,
    rules: RulesModel,
) -> (TxModel, Result<BrowserReplyModel, Failure>) {
    if !trusted {
        (t, Err(Failure::Forbidden))
    } else {
        match proxy_client(t, id, rules) {
            Err(f) => (t, Err(f)),
            Ok((c, s)) => match target_check(s, return_to) {
                Err(f) => (t, Err(f)),
                Ok(target) => if t.proxy_pending.dom().len() >= 10000 {
                    (
                        t,
                        Err(
                            Failure::Reply(
                                503,
                                "temporarily_unavailable"@,
                                "Too many pending proxy authorizations"@,
                            ),
                        ),
                    )
                } else {
                    let state = "ri_proxy_state_"@ + next_id(t);
                    let binding = "ri_proxy_binding_"@ + next_id(drawn(t));
                    let verifier = ""@ + next_id(drawn(drawn(t)));
                    let nonce = ""@ + next_id(drawn(drawn(drawn(t))));
                    let location = url_with_pairs(
                        authorize_url(cfg),
                        login_pairs(c, s, id, state, nonce, verifier),
                    );
                    if url_of(authorize_url(cfg)) is None {
                        (t, Err(Failure::Internal("Invalid issuer"@)))
                    } else {
                        let t1 = drawn(drawn(drawn(drawn(t))));
                        (
                            TxModel {
                                proxy_pending: t1.proxy_pending.insert(
                                    digest_of(state),
                                    PendingModel {
                                        client_id: id,
                                        fingerprint,
                                        browser_hash: digest_of(binding),
                                        verifier,
                                        nonce,
                                        return_to: target,
                                        expires_at: extended(t.now, 300),
                                        claimed: false,
                                    },
                                ),
                                ..t1
                            },
                            Ok(
                                redirect_model(
                                    location->0,
                                    seq![cookie_text(s, id, true, binding, 300)],
                                ),
                            ),
                        )
                    }
                },
            },
        }
    }
}

impl Core {
    /// Whether headers of the immediate peer are believed.
    pub fn proxy_peer(&self, peer: &str) -> (r: Result<(), Error>)
        ensures
            r is Ok == self@.config.trusted_proxies.contains(peer@),
            r is Err ==> r->Err_0@ == Failure::Forbidden,
    {
        if self.config.trusted_proxies.contains(peer) {
            Ok(())
        } else {
            Err(Error::Forbidden)
        }
    }

    /// Starts a proxy login. `fingerprint` is the digest of the client's registration.
    pub fn outpost_start(
        &self,
        tx: &mut Tx,
        id: &str,
        peer: &str,
        return_to: &str,
        fingerprint: &str,
        rules: &Rules,
    ) -> (r: Result<BrowserReply, Error>)
        ensures
            ({
                let out = started(
                    old(tx)@,
                    self@.config,
                    id@,
                    self@.config.trusted_proxies.contains(peer@),
                    return_to@,
                    fingerprint@,
                    rules@,
                );
                final(tx)@ == out.0 && agrees_with(r, out.1)
            }),
    {
        if let Err(e) = self.proxy_peer(peer) {
            return Err(e);
        }
        let (c, settings) = match client(tx, id, rules) {
            Ok(p) => p,
            Err(e) => return Err(e),
        };
        let return_to = match settings.target(return_to) {
            Ok(t) => t,
            Err(e) => return Err(e),
        };
        let open = tx.proxy_pending.keys();
        if open.len() >= 10000 {
            return Err(
                Error::reply(
                    503,
                    "temporarily_unavailable",
                    "Too many pending proxy authorizations",
                ),
            );
        }
        let base = trim_end_of(self.config.issuer.as_str(), '/');
        let url = concat(base.as_str(), "/oauth/authorize");
        if parse_url(url.as_str()).is_none() {
            return Err(Error::internal("Invalid issuer"));
        }
        let state = tx.random_token("ri_proxy_state_");
        let binding = tx.random_token("ri_proxy_binding_");
        let verifier = tx.random_token("");
        let nonce = tx.random_token("");
        let scopes = list_scopes(&c);
        let scope = join(&scopes, " ");
        let callback = settings.callback(id);
        let challenge = digest(verifier.as_str());
        let mut pairs: Vec<(String, String)> = Vec::new();
        pairs.push(pair("response_type", "code"));
        pairs.push(pair("response_mode", "query"));
        pairs.push(pair("client_id", id));
        pairs.push(pair("redirect_uri", callback.as_str()));
        pairs.push(pair("scope", scope.as_str()));
        pairs.push(pair("state", state.as_str()));
        pairs.push(pair("nonce", nonce.as_str()));
        pairs.push(pair("code_challenge", challenge.as_str()));
        pairs.push(pair("code_challenge_method", "S256"));
        assert(pair_texts(pairs@) =~= login_pairs(c@, settings@, id@, state@, nonce@, verifier@));
        let location = match append_query(url.as_str(), &pairs) {
            Some(u) => u,
            None => return Err(Error::internal("Invalid issuer")),
        };
        let row = Pending {
            client_id: id.to_owned(),
            fingerprint: fingerprint.to_owned(),
            browser_hash: digest(binding.as_str()),
            verifier,
            nonce,
            return_to,
            expires_at: tx.now.saturating_add(300),
            claimed: false,
        };
        let key = digest(state.as_str());
        tx.proxy_pending.put(key.as_str(), row);
        let mut cookies: Vec<String> = Vec::new();
        cookies.push(settings.cookie(id, true, binding.as_str(), 300));
        assert(texts(cookies@) =~= seq![cookie_text(settings@, id@, true, binding@, 300)]);
        Ok(redirect_reply(location, cookies))
    }
}

/// A parameter that a callback may carry.
pub open spec fn callback_parameter(k: Seq<char>) -> bool {
    k == "state"@ || k == "code"@ || k == "iss"@ || k == "error"@ || k == "error_description"@ || k
        == "session_state"@
}

/// The callback parameters as a map: each known, of at most 8 KiB, and given once.
pub open spec fn callback_map(pairs: Seq<(Seq<char>, Seq<char>)>) -> Option<
    Map<Seq<char>, Seq<char>>,
>
    decreases pairs.len(),
{
    if pairs.len() == 0 {
        Some(Map::empty())
    } else {
        match callback_map(pairs.drop_last()) {
            None => None,
            Some(m) => {
                let (k, v) = pairs.last();
                if !callback_parameter(k) || byte_count(v) > 8192 || m.dom().contains(k) {
                    None
                } else {
                    Some(m.insert(k, v))
                }
            },
        }
    }
}

proof fn lemma_callback_none(pairs: Seq<(Seq<char>, Seq<char>)>, n: int)
    requires
        0 <= n <= pairs.len(),
        callback_map(pairs.take(n)) is None,
    ensures
        callback_map(pairs) is None,
    decreases pairs.len() - n,
{
    if n < pairs.len() {
        assert(pairs.take(n + 1).drop_last() =~= pairs.take(n));
        lemma_callback_none(pairs, n + 1);
    } else {
        assert(pairs.take(n) =~= pairs);
    }
}

pub fn callback_params(pairs: &Vec<(String, String)>) -> (r: Result<Table<String>, Error>)
    ensures
        match callback_map(pair_texts(pairs@)) {
            Some(m) => r is Ok && r->Ok_0@ == m,
            None => fails(r, Failure::Bad("Invalid or duplicate proxy callback parameter"@)),
        },
{
    let ghost all = pair_texts(pairs@);
    let mut params: Table<String> = Table::new();
    let mut i: usize = 0;
    assert(all.take(0) =~= Seq::<(Seq<char>, Seq<char>)>::empty());
    while i < pairs.len()
        invariant
            i <= pairs.len(),
            all == pair_texts(pairs@),
            callback_map(all.take(i as int)) == Some(params@),
        decreases pairs.len() - i,
    {
        proof {
            assert(all.take(i + 1).drop_last() =~= all.take(i as int));
            assert(all.take(i + 1).last() == (pairs@[i as int].0@, pairs@[i as int].1@));
        }
        let k = pairs[i].0.as_str();
        let v = pairs[i].1.as_str();
        let known = same(k, "state") || same(k, "code") || same(k, "iss") || same(k, "error") || same(
            k,
            "error_description",
        ) || same(k, "session_state");
        if !known || byte_len(v) > 8192 || params.has(k) {
            proof {
                lemma_callback_none(all, i + 1);
            }
            return Err(Error::bad("Invalid or duplicate proxy callback parameter"));
        }
        params.put(k, v.to_owned());
        i = i + 1;
    }
    assert(all.take(i as int) =~= all);
    Ok(params)
}

/// The cookies named `name` in a cookie header.
pub open spec fn cookie_values(parts: Seq<Seq<char>>, name: Seq<char>) -> Seq<Seq<char>>
    decreases parts.len(),
{
    if parts.len() == 0 {
        Seq::empty()
    } else {
        let rest = cookie_values(parts.drop_last(), name);
        let p = trimmed(parts.last());
        let at = first_at(p, '=');
        if at < p.len() && p.take(at) == name {
            rest.push(p.skip(at + 1))
        } else {
            rest
        }
    }
}

/// The value of the cookie `name`: given at most once, and of at most 256 bytes. Where a header is
/// no text, whichever fault comes first is reported.
pub open spec fn cookie_faults(values: Seq<Option<Seq<char>>>, name: Seq<char>) -> Result<
    Option<Seq<char>>,
    Failure,
>
    decreases values.len(),
{
    if values.len() == 0 {
        Ok(None)
    } else {
        match cookie_faults(values.drop_last(), name) {
            Err(f) => Err(f),
            Ok(found) => match values.last() {
                None => Err(Failure::Bad("Invalid cookie"@)),
                Some(v) => taken_cookie(found, cookie_values(parts(v, ';'), name)),
            },
        }
    }
}

/// The cookie found so far, with those of one more header.
pub open spec fn taken_cookie(found: Option<Seq<char>>, more: Seq<Seq<char>>) -> Result<
    Option<Seq<char>>,
    Failure,
> {
    if more.len() == 0 {
        Ok(found)
    } else if found is Some || more.len() > 1 || byte_count(more[0]) > 256 {
        Err(Failure::Bad("Duplicate or oversized proxy cookie"@))
    } else {
        Ok(Some(more[0]))
    }
}

fn cookies_in(value: &str, name: &str) -> (r: Vec<String>)
    ensures
        texts(r@) == cookie_values(parts(value@, ';'), name@),
{
    let list = split(value, ';');
    let ghost all = texts(list@);
    let mut r: Vec<String> = Vec::new();
    let mut i: usize = 0;
    assert(all.take(0) =~= Seq::<Seq<char>>::empty());
    assert(texts(r@) =~= Seq::<Seq<char>>::empty());
    while i < list.len()
        invariant
            i <= list.len(),
            all == texts(list@),
            texts(r@) == cookie_values(all.take(i as int), name@),
        decreases list.len() - i,
    {
        let ghost was = texts(r@);
        proof {
            assert(all.take(i + 1).drop_last() =~= all.take(i as int));
            assert(all.take(i + 1).last() == list@[i as int]@);
        }
        let part = trim(list[i].as_str());
        if let Some((key, value)) = split_once(part.as_str(), '=') {
            if same(key.as_str(), name) {
                r.push(value);
                assert(texts(r@) =~= was.push(part@.skip(first_at(part@, '=') + 1)));
            }
        }
        i = i + 1;
    }
    assert(all.take(i as int) =~= all);
    r
}

proof fn lemma_cookie_fails(values: Seq<Option<Seq<char>>>, name: Seq<char>, n: int)
    requires
        0 <= n <= values.len(),
        cookie_faults(values.take(n), name) is Err,
    ensures
        cookie_faults(values, name) == cookie_faults(values.take(n), name),
    decreases values.len() - n,
{
    if n < values.len() {
        assert(values.take(n + 1).drop_last() =~= values.take(n));
        lemma_cookie_fails(values, name, n + 1);
    } else {
        assert(values.take(n) =~= values);
    }
}

/// The cookie `name` of a request.
pub fn cookie(headers: &Vec<Header>, name: &str) -> (r: Result<Option<String>, Error>)
    ensures
        match cookie_faults(header_values(views(headers@), "cookie"@), name@) {
            Ok(v) => r is Ok && opt_text(r->Ok_0) == v,
            Err(f) => fails(r, f),
        },
{
    let values = all_values(headers, "cookie");
    let ghost all = opt_texts(values@);
    let mut found: Option<String> = None;
    let mut i: usize = 0;
    assert(all.take(0) =~= Seq::<Option<Seq<char>>>::empty());
    while i < values.len()
        invariant
            i <= values.len(),
            all == opt_texts(values@),
            all == header_values(views(headers@), "cookie"@),
            cookie_faults(all.take(i as int), name@) == Ok::<Option<Seq<char>>, Failure>(
                opt_text(found),
            ),
        decreases values.len() - i,
    {
        proof {
            assert(all.take(i + 1).drop_last() =~= all.take(i as int));
            assert(all.take(i + 1).last() == opt_text(values@[i as int]));
            if cookie_faults(all.take(i + 1), name@) is Err {
                lemma_cookie_fails(all, name@, i + 1);
            }
        }
        match &values[i] {
            None => return Err(Error::bad("Invalid cookie")),
            Some(v) => {
                let more = cookies_in(v.as_str(), name);
                assert(texts(more@).len() == more.len());
                if more.len() > 0 {
                    assert(texts(more@)[0] == more@[0]@);
                    if found.is_some() || more.len() > 1 || byte_len(more[0].as_str()) > 256 {
                        return Err(Error::bad("Duplicate or oversized proxy cookie"));
                    }
                    found = Some(more[0].clone());
                }
            },
        }
        i = i + 1;
    }
    assert(all.take(i as int) =~= all);
    Ok(found)
}

/// The browser that comes back is the one that started, to the same client, and the provider that
/// answers is the client's.
pub open spec fn claim_check(
    t: TxModel,
    cfg: ConfigModel,
    id: Seq<char>,
    headers: Seq<HeaderModel>,
    params: Map<Seq<char>, Seq<char>>,
    fingerprint: Seq<char>,
    rules: RulesModel,
) -> Result<(SettingsModel, PendingModel), Failure> {
    if !params.dom().contains("state"@) {
        Err(Failure::Bad("Missing proxy state"@))
    } else {
        match proxy_client(t, id, rules) {
            Err(f) => Err(f),
            Ok((c, s)) => match cookie_faults(
                header_values(headers, "cookie"@),
                app_cookie_name(s, id, true),
            ) {
                Err(f) => Err(f),
                Ok(None) => Err(Failure::Unauthorized),
                Ok(Some(browser)) => {
                    let key = digest_of(params["state"@]);
                    let p = t.proxy_pending[key];
                    if !t.proxy_pending.dom().contains(key) || p.expires_at <= t.now || p.claimed
                        || p.client_id != id {
                        Err(Failure::Bad("Proxy authorization expired or used"@))
                    } else if p.fingerprint != fingerprint || digest_of(browser) != p.browser_hash
                        || !params.dom().contains("iss"@) || params["iss"@] != issuer_of(
                        cfg.issuer,
                        c,
                    ) {
                        Err(
                            Failure::Bad(
                                "Proxy browser binding, issuer or client configuration changed"@,
                            ),
                        )
                    } else {
                        Ok((s, p))
                    }
                },
            },
        }
    }
}

/// What the callback does first: it claims the started login, once.
pub open spec fn claimed(
    t: TxModel,
    cfg: ConfigModel,
    id: Seq<char>,
    trusted: bool,
    headers: Seq<HeaderModel>,
    pairs: Seq<(Seq<char>, Seq<char>)>,
    fingerprint: Seq<char>,
    rules: RulesModel,
) -> (TxModel, Result<(PendingModel, Seq<char>, Seq<char>), Failure>) {
    if !trusted {
        (t, Err(Failure::Forbidden))
    } else {
        match callback_map(pairs) {
            None => (
                t,
                Err(Failure::Bad("Invalid or duplicate proxy callback parameter"@)),
            ),
            Some(params) => match claim_check(t, cfg, id, headers, params, fingerprint, rules) {
                Err(f) => (t, Err(f)),
                Ok((s, p)) => {
                    let now_claimed = PendingModel { claimed: true, ..p };
                    (
                        TxModel {
                            proxy_pending: t.proxy_pending.insert(
                                digest_of(params["state"@]),
                                now_claimed,
                            ),
                            ..t
                        },
                        if params.dom().contains("error"@) {
                            Err(Failure::Forbidden)
                        } else if !params.dom().contains("code"@) {
                            Err(Failure::Bad("Missing authorization code"@))
                        } else {
                            Ok((now_claimed, params["code"@], callback_url(s, id)))
                        },
                    )
                },
            },
        }
    }
}

impl Core {
    /// Claims the login that a callback belongs to. The answer names the claimed login, the code and
    /// the redirect with which the caller redeems the code in process.
    pub fn outpost_callback(
        &self,
        tx: &mut Tx,
        id: &str,
        peer: &str,
        headers: &Vec<Header>,
        pairs: &Vec<(String, String)>,
        fingerprint: &str,
        rules: &Rules,
    ) -> (r: Result<(Pending, String, String), Error>)
        ensures
            ({
                let out = claimed(
                    old(tx)@,
                    self@.config,
                    id@,
                    self@.config.trusted_proxies.contains(peer@),
                    views(headers@),
                    pair_texts(pairs@),
                    fingerprint@,
                    rules@,
                );
                &&& final(tx)@ == out.0
                &&& match out.1 {
                    Ok(p) => r is Ok && (r->Ok_0).0@ == p.0 && (r->Ok_0).1@ == p.1 && (
                    r->Ok_0).2@ == p.2,
                    Err(f) => fails(r, f),
                }
            }),
    {
        if let Err(e) = self.proxy_peer(peer) {
            return Err(e);
        }
        let params = match callback_params(pairs) {
            Ok(p) => p,
            Err(e) => return Err(e),
        };
        let state = match params.get("state") {
            Some(s) => s.clone(),
            None => return Err(Error::bad("Missing proxy state")),
        };
        let (c, settings) = match client(tx, id, rules) {
            Ok(p) => p,
            Err(e) => return Err(e),
        };
        let name = settings.cookie_name(id, true);
        let browser = match cookie(headers, name.as_str()) {
            Ok(Some(b)) => b,
            Ok(None) => return Err(Error::Unauthorized),
            Err(e) => return Err(e),
        };
        let key = digest(state.as_str());
        let mut pending = match tx.proxy_pending.get(key.as_str()) {
            Some(p) => p.dup(),
            None => return Err(Error::bad("Proxy authorization expired or used")),
        };
        if pending.expires_at <= tx.now || pending.claimed || !same(pending.client_id.as_str(), id) {
            return Err(Error::bad("Proxy authorization expired or used"));
        }
        let browser_hash = digest(browser.as_str());
        let issuer = crate::issuer::for_client(self.config.issuer.as_str(), &c);
        let issuer_ok = match params.get("iss") {
            Some(i) => same(i.as_str(), issuer),
            None => false,
        };
        if !same(pending.fingerprint.as_str(), fingerprint) || !same(
            browser_hash.as_str(),
            pending.browser_hash.as_str(),
        ) || !issuer_ok {
            return Err(
                Error::bad("Proxy browser binding, issuer or client configuration changed"),
            );
        }
        pending.claimed = true;
        tx.proxy_pending.put(key.as_str(), pending.dup());
        if params.has("error") {
            return Err(Error::Forbidden);
        }
        match params.get("code") {
            Some(code) => Ok((pending, code.clone(), settings.callback(id))),
            None => Err(Error::bad("Missing authorization code")),
        }
    }
}

/// A started login is claimed once: the same callback again is refused.
pub proof fn callbacks_are_claimed_once(
    t: TxModel,
    cfg: ConfigModel,
    id: Seq<char>,
    headers: Seq<HeaderModel>,
    pairs: Seq<(Seq<char>, Seq<char>)>,
    fingerprint: Seq<char>,
    rules: RulesModel,
)
    requires
        claimed(t, cfg, id, true, headers, pairs, fingerprint, rules).0 != t,
    ensures
        ({
            let t1 = claimed(t, cfg, id, true, headers, pairs, fingerprint, rules).0;
            claimed(t1, cfg, id, true, headers, pairs, fingerprint, rules).1 is Err
        }),
{
}

/// Why no proxy session is opened for a redeemed code.
pub open spec fn open_check(
    t: TxModel,
    id: Seq<char>,
    p: PendingModel,
    access: Seq<char>,
    fingerprint: Seq<char>,
    identity_ok: bool,
    rules: RulesModel,
) -> Result<(SettingsModel, GrantModel), Failure> {
    match proxy_client(t, id, rules) {
        Err(f) => Err(f),
        Ok((c, s)) => {
            let key = digest_of(access);
            let g = t.access[key];
            if fingerprint != p.fingerprint {
                Err(Failure::Conflict("Proxy configuration changed"@))
            } else if !t.access.dom().contains(key) || g.client_id != id || g.nonce != Some(p.nonce)
                || g.expires_at <= t.now {
                Err(Failure::Unauthorized)
            } else if g.identity is None {
                Err(Failure::Forbidden)
            } else if !identity_ok {
                Err(Failure::Refused("identity"@))
            } else {
                let sid = (g.identity->0).session_id;
                if !t.sessions.dom().contains(sid) || t.sessions[sid].expires_at <= t.now
                    || !t.families.dom().contains(g.family_id) || t.families[g.family_id].revoked {
                    Err(Failure::Unauthorized)
                } else {
                    Ok((s, g))
                }
            }
        },
    }
}

/// When a proxy session ends: no later than the login session that it follows.
pub open spec fn proxy_expiry(t: TxModel, s: SettingsModel, g: GrantModel) -> u64 {
    let end = extended(t.now, s.session_ttl);
    let parent = t.sessions[(g.identity->0).session_id].expires_at;
    if end <= parent {
        end
    } else {
        parent
    }
}

/// What the callback does last: it opens the proxy session and revokes the OAuth tokens, which end
/// at the outpost.
pub open spec fn session_opened(
    t: TxModel,
    id: Seq<char>,
    p: PendingModel,
    access: Seq<char>,
    fingerprint: Seq<char>,
    identity_ok: bool,
    rules: RulesModel,
) -> (TxModel, Result<BrowserReplyModel, Failure>) {
    match open_check(t, id, p, access, fingerprint, identity_ok, rules) {
        Err(f) => (t, Err(f)),
        Ok((s, g)) => {
            let token = "ri_proxy_"@ + next_id(t);
            let end = proxy_expiry(t, s, g);
            let t1 = TxModel {
                proxy_sessions: t.proxy_sessions.insert(
                    digest_of(token),
                    ProxySessionModel {
                        client_id: id,
                        fingerprint: p.fingerprint,
                        identity: g.identity->0,
                        expires_at: end,
                    },
                ),
                ..drawn(t)
            };
            (
                audited(
                    family_revoked(t1, g.family_id),
                    (g.identity->0).user_id,
                    "proxy.session_create"@,
                    id,
                ),
                Ok(
                    redirect_model(
                        p.return_to,
                        seq![
                            cookie_text(s, id, false, token, (end - t.now) as u64),
                            cookie_text(s, id, true, ""@, 0),
                        ],
                    ),
                ),
            )
        },
    }
}

impl Core {
    /// Opens the proxy session of a claimed login whose code was redeemed for `access`.
    /// `identity_ok` says whether the identity policies accept the grant's identity.
    pub fn outpost_open(
        &self,
        tx: &mut Tx,
        id: &str,
        pending: &Pending,
        access: &str,
        fingerprint: &str,
        identity_ok: bool,
        rules: &Rules,
    ) -> (r: Result<BrowserReply, Error>)
        ensures
            ({
                let out = session_opened(
                    old(tx)@,
                    id@,
                    pending@,
                    access@,
                    fingerprint@,
                    identity_ok,
                    rules@,
                );
                final(tx)@ == out.0 && agrees_with(r, out.1)
            }),
    {
        let (_, settings) = match client(tx, id, rules) {
            Ok(p) => p,
            Err(e) => return Err(e),
        };
        if !same(fingerprint, pending.fingerprint.as_str()) {
            return Err(Error::conflict("Proxy configuration changed"));
        }
        let key = digest(access);
        let grant = match tx.access.get(key.as_str()) {
            Some(g) => g.dup(),
            None => return Err(Error::Unauthorized),
        };
        if !same(grant.client_id.as_str(), id) || !opt_is(&grant.nonce, pending.nonce.as_str())
            || grant.expires_at <= tx.now {
            return Err(Error::Unauthorized);
        }
        let identity = match &grant.identity {
            Some(i) => i.dup(),
            None => return Err(Error::Forbidden),
        };
        if !identity_ok {
            return Err(Error::Refused("identity".to_owned()));
        }
        let parent_end = match tx.sessions.get(identity.session_id.as_str()) {
            Some(s) => s.expires_at,
            None => return Err(Error::Unauthorized),
        };
        if parent_end <= tx.now {
            return Err(Error::Unauthorized);
        }
        match tx.families.get(grant.family_id.as_str()) {
            Some(f) => {
                if f.revoked {
                    return Err(Error::Unauthorized);
                }
            },
            None => return Err(Error::Unauthorized),
        }
        let now = tx.now;
        let token = tx.random_token("ri_proxy_");
        let expires_at = earlier(now.saturating_add(settings.session_ttl), parent_end);
        let user = identity.user_id.clone();
        let row = ProxySession {
            client_id: id.to_owned(),
            fingerprint: pending.fingerprint.clone(),
            identity,
            expires_at,
        };
        let hash = digest(token.as_str());
        tx.proxy_sessions.put(hash.as_str(), row);
        revoke_family(tx, grant.family_id.as_str());
        audit(tx, user.as_str(), "proxy.session_create", id);
        let mut cookies: Vec<String> = Vec::new();
        cookies.push(settings.cookie(id, false, token.as_str(), expires_at - now));
        cookies.push(settings.cookie(id, true, "", 0));
        assert(texts(cookies@) =~= seq![
            cookie_text(settings@, id@, false, token@, (expires_at - now) as u64),
            cookie_text(settings@, id@, true, ""@, 0),
        ]);
        Ok(redirect_reply(pending.return_to.clone(), cookies))
    }
}

/// A cookie of the provider itself.
pub open spec fn private_cookie_name(name: Seq<char>) -> bool {
    has_prefix(name, "riauth_"@) || has_prefix(name, "__Host-riauth_"@) || has_prefix(
        name,
        "__Secure-riauth_"@,
    )
}

pub fn private_cookie(name: &str) -> (r: bool)
    ensures
        r == private_cookie_name(name@),
{
    starts_with(name, "riauth_") || starts_with(name, "__Host-riauth_") || starts_with(
        name,
        "__Secure-riauth_",
    )
}

/// The application's cookies in one header: those that are not the provider's own.
pub open spec fn app_cookies_in(list: Seq<Seq<char>>) -> Seq<Seq<char>>
    decreases list.len(),
{
    if list.len() == 0 {
        Seq::empty()
    } else {
        let rest = app_cookies_in(list.drop_last());
        let p = trimmed(list.last());
        let at = first_at(p, '=');
        if at < p.len() && !private_cookie_name(p.take(at)) {
            rest.push(p.take(at) + "="@ + p.skip(at + 1))
        } else {
            rest
        }
    }
}

/// The application's cookies in all headers that are text.
pub open spec fn app_cookies(values: Seq<Option<Seq<char>>>) -> Seq<Seq<char>>
    decreases values.len(),
{
    if values.len() == 0 {
        Seq::empty()
    } else {
        let rest = app_cookies(values.drop_last());
        match values.last() {
            Some(v) => rest + app_cookies_in(parts(v, ';')),
            None => rest,
        }
    }
}

fn append_app_cookies(out: &mut Vec<String>, value: &str)
    ensures
        texts(final(out)@) == texts(old(out)@) + app_cookies_in(parts(value@, ';')),
{
    let list = split(value, ';');
    let ghost all = texts(list@);
    let ghost start = texts(out@);
    let mut i: usize = 0;
    assert(all.take(0) =~= Seq::<Seq<char>>::empty());
    assert(start + app_cookies_in(all.take(0)) =~= start);
    while i < list.len()
        invariant
            i <= list.len(),
            all == texts(list@),
            texts(out@) == start + app_cookies_in(all.take(i as int)),
        decreases list.len() - i,
    {
        let ghost was = texts(out@);
        proof {
            assert(all.take(i + 1).drop_last() =~= all.take(i as int));
            assert(all.take(i + 1).last() == list@[i as int]@);
        }
        let part = trim(list[i].as_str());
        if let Some((key, value)) = split_once(part.as_str(), '=') {
            if !private_cookie(key.as_str()) {
                let text = concat3(key.as_str(), "=", value.as_str());
                out.push(text);
                assert(texts(out@) =~= was.push(text@));
            }
        }
        i = i + 1;
        assert(texts(out@) =~= start + app_cookies_in(all.take(i as int)));
    }
    assert(all.take(i as int) =~= all);
}

fn list_app_cookies(headers: &Vec<Header>) -> (r: Vec<String>)
    ensures
        texts(r@) == app_cookies(header_values(views(headers@), "cookie"@)),
{
    let values = all_values(headers, "cookie");
    let ghost all = opt_texts(values@);
    let mut out: Vec<String> = Vec::new();
    let mut i: usize = 0;
    assert(all.take(0) =~= Seq::<Option<Seq<char>>>::empty());
    assert(texts(out@) =~= Seq::<Seq<char>>::empty());
    while i < values.len()
        invariant
            i <= values.len(),
            all == opt_texts(values@),
            texts(out@) == app_cookies(all.take(i as int)),
        decreases values.len() - i,
    {
        proof {
            assert(all.take(i + 1).drop_last() =~= all.take(i as int));
            assert(all.take(i + 1).last() == opt_text(values@[i as int]));
        }
        if let Some(v) = &values[i] {
            append_app_cookies(&mut out, v.as_str());
        }
        i = i + 1;
    }
    assert(all.take(i as int) =~= all);
    out
}

/// Who is signed in at a proxied application, as the policies outside the library see it.
pub struct ProxyIdentity {
    /// The identity and claim policies accept the session's identity.
    pub accepted: bool,
    pub user: User,
    /// The user's subject at the client.
    pub subject: String,
    /// The user's groups.
    pub groups: Names,
}

/// What a [`ProxyIdentity`] holds.
pub struct ProxyIdentityModel {
    pub accepted: bool,
    pub user: UserModel,
    pub subject: Seq<char>,
    pub groups: Set<Seq<char>>,
}

impl View for ProxyIdentity {
    type V = ProxyIdentityModel;

    open spec fn view(&self) -> ProxyIdentityModel {
        ProxyIdentityModel {
            accepted: self.accepted,
            user: self.user@,
            subject: self.subject@,
            groups: self.groups@,
        }
    }
}

impl Row for ProxyIdentity {
    fn dup(&self) -> (r: Self) {
        ProxyIdentity {
            accepted: self.accepted,
            user: self.user.dup(),
            subject: self.subject.clone(),
            groups: self.groups.copy(),
        }
    }
}

/// The proxy session of a request, or why there is none.
pub open spec fn proxy_session(
    t: TxModel,
    id: Seq<char>,
    headers: Seq<HeaderModel>,
    fingerprint: Seq<char>,
    rules: RulesModel,
) -> Result<(ClientModel, ProxySessionModel), Failure> {
    match proxy_client(t, id, rules) {
        Err(f) => Err(f),
        Ok((c, s)) => match one_value(headers, "x-original-url"@) {
            Err(f) => Err(f),
            Ok(url) => match target_check(s, url) {
                Err(f) => Err(f),
                Ok(_) => match cookie_faults(
                    header_values(headers, "cookie"@),
                    app_cookie_name(s, id, false),
                ) {
                    Err(f) => Err(f),
                    Ok(None) => Err(Failure::Unauthorized),
                    Ok(Some(token)) => {
                        let key = digest_of(token);
                        let p = t.proxy_sessions[key];
                        let sid = p.identity.session_id;
                        if !t.proxy_sessions.dom().contains(key) || p.client_id != id || p.expires_at
                            <= t.now || p.fingerprint != fingerprint || !t.sessions.dom().contains(sid)
                            || t.sessions[sid].expires_at <= t.now {
                            Err(Failure::Unauthorized)
                        } else {
                            Ok((c, p))
                        }
                    },
                },
            },
        },
    }
}

/// The identity headers that the application gets.
pub open spec fn identity_headers(c: ClientModel, who: ProxyIdentityModel, cookies: Seq<char>) -> Seq<
    HeaderModel,
> {
    let email = if c.scopes.contains("email"@) && who.user.email is Some {
        who.user.email->0
    } else {
        ""@
    };
    let groups = if c.scopes.contains("groups"@) {
        joined(in_order(who.groups), "|"@)
    } else {
        ""@
    };
    seq![
        HeaderModel { name: "x-riauth-app-cookie"@, value: Some(cookies), raw: Seq::empty() },
        HeaderModel { name: "x-authentik-username"@, value: Some(who.user.username), raw: Seq::empty() },
        HeaderModel { name: "x-authentik-uid"@, value: Some(who.subject), raw: Seq::empty() },
        HeaderModel { name: "x-authentik-name"@, value: Some(who.user.display_name), raw: Seq::empty() },
        HeaderModel { name: "x-authentik-email"@, value: Some(email), raw: Seq::empty() },
        HeaderModel { name: "x-authentik-groups"@, value: Some(groups), raw: Seq::empty() },
        HeaderModel { name: "x-auth-user"@, value: Some(who.user.username), raw: Seq::empty() },
        HeaderModel { name: "x-auth-sub"@, value: Some(who.subject), raw: Seq::empty() },
    ]
}

/// Every header of the list can be sent.
pub open spec fn sendable(h: Seq<HeaderModel>) -> bool {
    forall|i: int| 0 <= i < h.len() ==> header_value_text(#[trigger] h[i].value->0)
}

/// What a signed-in request is answered: when the session ends and the identity headers.
pub open spec fn proxy_answer(
    t: TxModel,
    id: Seq<char>,
    headers: Seq<HeaderModel>,
    fingerprint: Seq<char>,
    who: ProxyIdentityModel,
    rules: RulesModel,
) -> Result<(u64, Seq<HeaderModel>), Failure> {
    match proxy_session(t, id, headers, fingerprint, rules) {
        Err(f) => Err(f),
        Ok((c, p)) => {
            let cookies = joined(app_cookies(header_values(headers, "cookie"@)), "; "@);
            let out = identity_headers(c, who, cookies);
            if !who.accepted {
                Err(Failure::Refused("identity"@))
            } else if !header_value_text(cookies) {
                Err(Failure::Bad("Invalid application cookie"@))
            } else if !sendable(out) {
                Err(
                    Failure::Bad("Identity attribute cannot be represented in a proxy header"@),
                )
            } else {
                Ok((p.expires_at, out))
            }
        },
    }
}

fn push_header(out: &mut Vec<Header>, name: &str, value: &str)
    ensures
        views(final(out)@) == views(old(out)@).push(
            HeaderModel { name: name@, value: Some(value@), raw: Seq::empty() },
        ),
{
    let ghost was = views(out@);
    out.push(Header { name: name.to_owned(), value: Some(value.to_owned()), raw: Vec::new() });
    assert(views(out@) =~= was.push(HeaderModel { name: name@, value: Some(value@), raw: Seq::empty() }));
}

fn can_send(h: &Vec<Header>) -> (r: bool)
    requires
        forall|i: int| 0 <= i < h.len() ==> (#[trigger] h@[i]).value is Some,
    ensures
        r == sendable(views(h@)),
{
    let ghost all = views(h@);
    let mut i: usize = 0;
    while i < h.len()
        invariant
            i <= h.len(),
            all == views(h@),
            forall|j: int| 0 <= j < h.len() ==> (#[trigger] h@[j]).value is Some,
            forall|j: int| 0 <= j < i ==> header_value_text(#[trigger] all[j].value->0),
        decreases h.len() - i,
    {
        assert(all[i as int] == h@[i as int]@);
        if let Some(v) = &h[i].value {
            if !header_value_ok(v.as_str()) {
                assert(!header_value_text(all[i as int].value->0));
                return false;
            }
        }
        i = i + 1;
    }
    true
}

fn find_session(
    tx: &Tx,
    id: &str,
    headers: &Vec<Header>,
    fingerprint: &str,
    rules: &Rules,
) -> (r: Result<(Client, ProxySession), Error>)
    ensures
        match proxy_session(tx@, id@, views(headers@), fingerprint@, rules@) {
            Ok(p) => r is Ok && (r->Ok_0).0@ == p.0 && (r->Ok_0).1@ == p.1,
            Err(f) => fails(r, f),
        },
{
    let (c, settings) = match client(tx, id, rules) {
        Ok(p) => p,
        Err(e) => return Err(e),
    };
    let url = match one(headers, "x-original-url") {
        Ok(u) => u,
        Err(e) => return Err(e),
    };
    if let Err(e) = settings.target(url.as_str()) {
        return Err(e);
    }
    let name = settings.cookie_name(id, false);
    let token = match cookie(headers, name.as_str()) {
        Ok(Some(t)) => t,
        Ok(None) => return Err(Error::Unauthorized),
        Err(e) => return Err(e),
    };
    let key = digest(token.as_str());
    let session = match tx.proxy_sessions.get(key.as_str()) {
        Some(s) => s.dup(),
        None => return Err(Error::Unauthorized),
    };
    if !same(session.client_id.as_str(), id) || session.expires_at <= tx.now || !same(
        session.fingerprint.as_str(),
        fingerprint,
    ) {
        return Err(Error::Unauthorized);
    }
    match tx.sessions.get(session.identity.session_id.as_str()) {
        Some(s) => {
            if s.expires_at <= tx.now {
                return Err(Error::Unauthorized);
            }
        },
        None => return Err(Error::Unauthorized),
    }
    Ok((c, session))
}

impl Core {
    /// Answers whether a request is signed in, and as whom.
    pub fn outpost_auth(
        &self,
        tx: &Tx,
        id: &str,
        peer: &str,
        headers: &Vec<Header>,
        fingerprint: &str,
        who: &ProxyIdentity,
        rules: &Rules,
    ) -> (r: Result<(u64, Vec<Header>), Error>)
        ensures
            if !self@.config.trusted_proxies.contains(peer@) {
                fails(r, Failure::Forbidden)
            } else {
                match proxy_answer(tx@, id@, views(headers@), fingerprint@, who@, rules@) {
                    Ok(p) => r is Ok && (r->Ok_0).0 == p.0 && views((r->Ok_0).1@) == p.1,
                    Err(f) => fails(r, f),
                }
            },
    {
        if let Err(e) = self.proxy_peer(peer) {
            return Err(e);
        }
        let (c, session) = match find_session(tx, id, headers, fingerprint, rules) {
            Ok(p) => p,
            Err(e) => return Err(e),
        };
        if !who.accepted {
            return Err(Error::Refused("identity".to_owned()));
        }
        let list = list_app_cookies(headers);
        let cookies = join(&list, "; ");
        if !header_value_ok(cookies.as_str()) {
            return Err(Error::bad("Invalid application cookie"));
        }
        let groups = if c.scopes.contains("groups") {
            who.groups.join("|")
        } else {
            "".to_owned()
        };
        let email = match &who.user.email {
            Some(e) => {
                if c.scopes.contains("email") {
                    e.as_str()
                } else {
                    ""
                }
            },
            None => "",
        };
        let mut out: Vec<Header> = Vec::new();
        assert(views(out@) =~= Seq::<HeaderModel>::empty());
        push_header(&mut out, "x-riauth-app-cookie", cookies.as_str());
        push_header(&mut out, "x-authentik-username", who.user.username.as_str());
        push_header(&mut out, "x-authentik-uid", who.subject.as_str());
        push_header(&mut out, "x-authentik-name", who.user.display_name.as_str());
        push_header(&mut out, "x-authentik-email", email);
        push_header(&mut out, "x-authentik-groups", groups.as_str());
        push_header(&mut out, "x-auth-user", who.user.username.as_str());
        push_header(&mut out, "x-auth-sub", who.subject.as_str());
        let ghost want = identity_headers(c@, who@, cookies@);
        proof {
            assert(views(out@) =~= want);
            assert forall|i: int| 0 <= i < out.len() implies (#[trigger] out@[i]).value is Some by {
                assert(views(out@)[i] == out@[i]@);
            }
        }
        if !can_send(&out) {
            return Err(
                Error::bad("Identity attribute cannot be represented in a proxy header"),
            );
        }
        Ok((session.expires_at, out))
    }
}

/// Where a request that is not signed in is sent, or why it is refused.
pub open spec fn login_url_check(
    t: TxModel,
    id: Seq<char>,
    headers: Seq<HeaderModel>,
    rules: RulesModel,
) -> Result<(Seq<char>, Seq<char>), Failure> {
    match proxy_client(t, id, rules) {
        Err(f) => Err(f),
        Ok((_, s)) => match one_value(headers, "x-original-url"@) {
            Err(f) => Err(f),
            Ok(url) => match target_check(s, url) {
                Err(f) => Err(f),
                Ok(target) => Ok((s.external_origin + "/outpost/"@ + id + "/start"@, target)),
            },
        },
    }
}

impl Core {
    /// The URL that starts a login for a request, and comes back to it.
    pub fn outpost_login_url(
        &self,
        tx: &Tx,
        id: &str,
        peer: &str,
        headers: &Vec<Header>,
        rules: &Rules,
    ) -> (r: Result<String, Error>)
        ensures
            if !self@.config.trusted_proxies.contains(peer@) {
                fails(r, Failure::Forbidden)
            } else {
                match login_url_check(tx@, id@, views(headers@), rules@) {
                    Err(f) => fails(r, f),
                    Ok((base, target)) => match url_with_pairs(base, seq![("rd"@, target)]) {
                        Some(u) => r is Ok && r->Ok_0@ == u,
                        None => fails(r, Failure::Internal("Invalid proxy origin"@)),
                    },
                }
            },
    {
        if let Err(e) = self.proxy_peer(peer) {
            return Err(e);
        }
        let (_, settings) = match client(tx, id, rules) {
            Ok(p) => p,
            Err(e) => return Err(e),
        };
        let url = match one(headers, "x-original-url") {
            Ok(u) => u,
            Err(e) => return Err(e),
        };
        let target = match settings.target(url.as_str()) {
            Ok(t) => t,
            Err(e) => return Err(e),
        };
        let mut base = concat3(settings.external_origin.as_str(), "/outpost/", id);
        base.append("/start");
        let mut pairs: Vec<(String, String)> = Vec::new();
        pairs.push(pair("rd", target.as_str()));
        assert(pair_texts(pairs@) =~= seq![("rd"@, target@)]);
        match append_query(base.as_str(), &pairs) {
            Some(u) => Ok(u),
            None => Err(Error::internal("Invalid proxy origin")),
        }
    }
}

/// The application's session of a user at a client.
pub open spec fn users_proxy_session(user_id: Seq<char>, cid: Seq<char>) -> spec_fn(
    ProxySessionModel,
) -> bool {
    |s: ProxySessionModel| s.client_id == cid && s.identity.user_id == user_id
}

/// Ends the proxy sessions of a user at a client.
pub fn revoke_sessions(tx: &mut Tx, user_id: &str, cid: &str)
    ensures
        final(tx)@ == (TxModel {
            proxy_sessions: without(
                old(tx)@.proxy_sessions,
                users_proxy_session(user_id@, cid@),
            ),
            ..old(tx)@
        }),
{
    let ghost m = tx@.proxy_sessions;
    let ghost p = users_proxy_session(user_id@, cid@);
    let ghost t0 = tx@;
    let mut i: usize = 0;
    tx.proxy_sessions.listing();
    while i < tx.proxy_sessions.len()
        invariant
            i <= tx.proxy_sessions.entries().len(),
            p == users_proxy_session(user_id@, cid@),
            m == t0.proxy_sessions,
            tx@ == (TxModel { proxy_sessions: tx@.proxy_sessions, ..t0 }),
            forall|k: Seq<char>| #[trigger]
                tx@.proxy_sessions.dom().contains(k) ==> m.dom().contains(k)
                    && tx@.proxy_sessions[k] == m[k],
            forall|k: Seq<char>| #[trigger]
                m.dom().contains(k) && !tx@.proxy_sessions.dom().contains(k) ==> p(m[k]),
            forall|j: int| 0 <= j < i ==> !p((#[trigger] tx.proxy_sessions.entries()[j]).1),
        decreases tx.proxy_sessions.entries().len() - i,
    {
        tx.proxy_sessions.listing();
        let s = tx.proxy_sessions.row_at(i);
        if same(s.client_id.as_str(), cid) && same(s.identity.user_id.as_str(), user_id) {
            let ghost was = tx.proxy_sessions.entries();
            tx.proxy_sessions.remove_at(i);
            proof {
                assert forall|j: int| 0 <= j < i implies !p(
                    (#[trigger] tx.proxy_sessions.entries()[j]).1,
                ) by {
                    assert(tx.proxy_sessions.entries()[j] == was[j]);
                }
            }
        } else {
            i = i + 1;
        }
    }
    tx.proxy_sessions.listing();
    proof {
        assert forall|k: Seq<char>| #[trigger] tx@.proxy_sessions.dom().contains(k) implies !p(
            m[k],
        ) by {
            let j = position(tx.proxy_sessions.entries(), k);
            assert(tx.proxy_sessions.entries()[j].0 == k);
        }
        assert(tx@.proxy_sessions =~= without(m, p));
    }
}

pub open spec fn old_pending(at: u64) -> spec_fn(PendingModel) -> bool {
    |p: PendingModel| p.expires_at < at
}

pub open spec fn old_session(at: u64) -> spec_fn(ProxySessionModel) -> bool {
    |s: ProxySessionModel| s.expires_at < at
}

fn is_old_pending(p: &Pending, at: u64) -> (b: bool)
    ensures
        b == old_pending(at)(p@),
{
    p.expires_at < at
}

fn is_old_session(s: &ProxySession, at: u64) -> (b: bool)
    ensures
        b == old_session(at)(s@),
{
    s.expires_at < at
}

/// Drops started logins and sessions that ended before `at`.
pub fn cleanup(tx: &mut Tx, at: u64)
    ensures
        final(tx)@ == (TxModel {
            proxy_pending: without(old(tx)@.proxy_pending, old_pending(at)),
            proxy_sessions: without(old(tx)@.proxy_sessions, old_session(at)),
            ..old(tx)@
        }),
{
    tx.proxy_pending.purge(at, is_old_pending, Ghost(old_pending(at)));
    tx.proxy_sessions.purge(at, is_old_session, Ghost(old_session(at)));
}

/// Why a logout is refused: it must come from the application itself.
pub open spec fn logout_check(
    t: TxModel,
    id: Seq<char>,
    headers: Seq<HeaderModel>,
    rules: RulesModel,
) -> Result<(SettingsModel, Option<Seq<char>>), Failure> {
    match proxy_client(t, id, rules) {
        Err(f) => Err(f),
        Ok((_, s)) => match logout_origin(s, id, headers) {
            Err(f) => Err(f),
            Ok(origin) => match one_value(headers, "origin"@) {
                Err(f) => Err(f),
                Ok(given_origin) => if given_origin != origin {
                    Err(Failure::Forbidden)
                } else if header_values(headers, "sec-fetch-site"@).len() > 0 && one_value(
                    headers,
                    "sec-fetch-site"@,
                ) is Err {
                    Err(one_value(headers, "sec-fetch-site"@)->Err_0)
                } else if header_values(headers, "sec-fetch-site"@).len() > 0 && one_value(
                    headers,
                    "sec-fetch-site"@,
                ) != Ok::<Seq<char>, Failure>("same-origin"@) && one_value(
                    headers,
                    "sec-fetch-site"@,
                ) != Ok::<Seq<char>, Failure>("none"@) {
                    Err(Failure::Forbidden)
                } else {
                    match cookie_faults(
                        header_values(headers, "cookie"@),
                        app_cookie_name(s, id, false),
                    ) {
                        Err(f) => Err(f),
                        Ok(None) => Ok((s, None)),
                        Ok(Some(token)) => {
                            let key = digest_of(token);
                            if !t.proxy_sessions.dom().contains(key) {
                                Ok((s, None))
                            } else if t.proxy_sessions[key].client_id != id {
                                Err(Failure::Forbidden)
                            } else {
                                Ok((s, Some(key)))
                            }
                        },
                    }
                },
            },
        },
    }
}

/// The origin that a logout must come from.
pub open spec fn logout_origin(s: SettingsModel, id: Seq<char>, headers: Seq<HeaderModel>) -> Result<
    Seq<char>,
    Failure,
> {
    if header_values(headers, "x-original-url"@).len() == 0 {
        Ok(s.external_origin)
    } else {
        match one_value(headers, "x-original-url"@) {
            Err(f) => Err(f),
            Ok(value) => match url_of(value) {
                None => Err(Failure::Bad("Invalid proxy logout target"@)),
                Some(u) => if !own_origin(s, u.origin) || u.path != "/outpost/"@ + id + "/logout"@
                    || u.query is Some || u.fragment is Some {
                    Err(Failure::Forbidden)
                } else {
                    Ok(u.origin)
                },
            },
        }
    }
}

fn find_logout_origin(settings: &Settings, id: &str, headers: &Vec<Header>) -> (r: Result<String, Error>)
    ensures
        agrees_with(r, logout_origin(settings@, id@, views(headers@))),
{
    if !has_header(headers, "x-original-url") {
        return Ok(settings.external_origin.clone());
    }
    let value = match one(headers, "x-original-url") {
        Ok(v) => v,
        Err(e) => return Err(e),
    };
    let u = match parse_url(value.as_str()) {
        Some(u) => u,
        None => return Err(Error::bad("Invalid proxy logout target")),
    };
    let path = concat3("/outpost/", id, "/logout");
    if !settings.allows_origin(u.origin.as_str()) || !same(u.path.as_str(), path.as_str())
        || u.query.is_some() || u.fragment.is_some() {
        return Err(Error::Forbidden);
    }
    Ok(u.origin)
}

impl Core {
    /// Ends the proxy session of a browser.
    pub fn outpost_logout(
        &self,
        tx: &mut Tx,
        id: &str,
        peer: &str,
        headers: &Vec<Header>,
        rules: &Rules,
    ) -> (r: Result<BrowserReply, Error>)
        ensures
            ({
                let out = proxy_logged_out(
                    old(tx)@,
                    self@.config.trusted_proxies.contains(peer@),
                    id@,
                    views(headers@),
                    rules@,
                );
                final(tx)@ == out.0 && agrees_with(r, out.1)
            }),
    {
        if let Err(e) = self.proxy_peer(peer) {
            return Err(e);
        }
        let (_, settings) = match client(tx, id, rules) {
            Ok(p) => p,
            Err(e) => return Err(e),
        };
        let target_origin = match find_logout_origin(&settings, id, headers) {
            Ok(o) => o,
            Err(e) => return Err(e),
        };
        let origin = match one(headers, "origin") {
            Ok(o) => o,
            Err(e) => return Err(e),
        };
        if !same(origin.as_str(), target_origin.as_str()) {
            return Err(Error::Forbidden);
        }
        if has_header(headers, "sec-fetch-site") {
            match one(headers, "sec-fetch-site") {
                Ok(site) => {
                    if !same(site.as_str(), "same-origin") && !same(site.as_str(), "none") {
                        return Err(Error::Forbidden);
                    }
                },
                Err(e) => return Err(e),
            }
        }
        let name = settings.cookie_name(id, false);
        let token = match cookie(headers, name.as_str()) {
            Ok(t) => t,
            Err(e) => return Err(e),
        };
        if let Some(token) = token {
            let key = digest(token.as_str());
            let owner: Option<(bool, String)> = match tx.proxy_sessions.get(key.as_str()) {
                Some(s) => Some((same(s.client_id.as_str(), id), s.identity.user_id.clone())),
                None => None,
            };
            if let Some((ours, user)) = owner {
                if !ours {
                    return Err(Error::Forbidden);
                }
                tx.proxy_sessions.delete(key.as_str());
                audit(tx, user.as_str(), "proxy.session_revoke", id);
            }
        }
        let mut cookies: Vec<String> = Vec::new();
        cookies.push(settings.cookie(id, false, "", 0));
        assert(texts(cookies@) =~= seq![cookie_text(settings@, id@, false, ""@, 0)]);
        Ok(body_reply(crate::json::single("logged_out", Json::Bool(true)), cookies))
    }
}

/// The browser is given an opaque reference, never a token: what it is sent is the same for every
/// access token of the same grant, and that token's family is over.
pub proof fn cookies_hold_no_tokens(
    t: TxModel,
    id: Seq<char>,
    p: PendingModel,
    access: Seq<char>,
    other: Seq<char>,
    fingerprint: Seq<char>,
    identity_ok: bool,
    rules: RulesModel,
)
    requires
        session_opened(t, id, p, access, fingerprint, identity_ok, rules).1 is Ok,
        t.access.dom().contains(digest_of(other)),
        t.access[digest_of(access)] == t.access[digest_of(other)],
    ensures
        session_opened(t, id, p, access, fingerprint, identity_ok, rules).1 == session_opened(
            t,
            id,
            p,
            other,
            fingerprint,
            identity_ok,
            rules,
        ).1,
        session_opened(
            t,
            id,
            p,
            access,
            fingerprint,
            identity_ok,
            rules,
        ).0.families[t.access[digest_of(access)].family_id].revoked,
{
}

/// What starts a login at an application. The browser is sent to the provider with a request for the
/// application, and gets a cookie that binds it; the request is remembered for five minutes, with where
/// the browser wants to go.
pub proof fn started_logins_remember_the_browser(
    t: TxModel,
    cfg: ConfigModel,
    id: Seq<char>,
    return_to: Seq<char>,
    fingerprint: Seq<char>,
    rules: RulesModel,
)
    requires
        started(t, cfg, id, true, return_to, fingerprint, rules).1 is Ok,
        t.now + 300 <= u64::MAX,
    ensures
        ({
            let out = started(t, cfg, id, true, return_to, fingerprint, rules);
            let state = "ri_proxy_state_"@ + next_id(t);
            let binding = "ri_proxy_binding_"@ + next_id(drawn(t));
            let p = out.0.proxy_pending[digest_of(state)];
            let s = t.clients[id].settings.proxy->0;
            &&& t.clients.dom().contains(id) && t.clients[id].enabled && t.clients[id].settings.proxy
                is Some
            &&& out.0.proxy_pending.dom().contains(digest_of(state))
            &&& p.client_id == id && p.fingerprint == fingerprint && !p.claimed
            &&& p.browser_hash == digest_of(binding)
            &&& p.expires_at == t.now + 300
            &&& url_of(return_to) is Some && p.return_to == (url_of(return_to)->0).text
            &&& (url_of(return_to)->0).origin == s.external_origin || (s.domain matches Some(d)
                && d.application_origins.contains((url_of(return_to)->0).origin))
            &&& out.0.proxy_sessions == t.proxy_sessions
        }),
        started(t, cfg, id, false, return_to, fingerprint, rules) == (
            t,
            Err::<BrowserReplyModel, Failure>(Failure::Forbidden),
        ),
{
}

/// What a login at an application gives: a session of the application for the user who logged in, that
/// ends with its own time or with the user's session, and sends the browser where it wanted to go. The
/// tokens of the login are ended at once.
pub proof fn opened_sessions_are_the_users(
    t: TxModel,
    id: Seq<char>,
    p: PendingModel,
    access: Seq<char>,
    fingerprint: Seq<char>,
    rules: RulesModel,
)
    requires
        session_opened(t, id, p, access, fingerprint, true, rules).1 is Ok,
        t.now + (t.clients[id].settings.proxy->0).session_ttl <= u64::MAX,
    ensures
        ({
            let out = session_opened(t, id, p, access, fingerprint, true, rules);
            let g = t.access[digest_of(access)];
            let s = t.clients[id].settings.proxy->0;
            let kept = out.0.proxy_sessions[digest_of("ri_proxy_"@ + next_id(t))];
            let user_session = t.sessions[(g.identity->0).session_id];
            &&& t.access.dom().contains(digest_of(access))
            &&& g.client_id == id && g.nonce == Some(p.nonce) && g.expires_at > t.now
            &&& g.identity is Some
            &&& fingerprint == p.fingerprint
            &&& out.0.proxy_sessions.dom().contains(digest_of("ri_proxy_"@ + next_id(t)))
            &&& kept.client_id == id && kept.fingerprint == fingerprint
            &&& Some(kept.identity) == g.identity
            &&& kept.expires_at > t.now || s.session_ttl == 0
            &&& kept.expires_at <= user_session.expires_at && kept.expires_at <= t.now + s.session_ttl
            &&& kept.expires_at == user_session.expires_at || kept.expires_at == t.now + s.session_ttl
            &&& out.0.families[g.family_id].revoked
            &&& out.0.audit.last().action == "proxy.session_create"@
        }),
{
}

/// A request is let through for the session whose cookie it carries, of this application and as it is
/// configured now, while the session and the user's own session live.
pub proof fn requests_pass_with_a_living_session(
    t: TxModel,
    id: Seq<char>,
    headers: Seq<HeaderModel>,
    fingerprint: Seq<char>,
    who: ProxyIdentityModel,
    rules: RulesModel,
)
    requires
        proxy_answer(t, id, headers, fingerprint, who, rules) is Ok,
    ensures
        ({
            let out = proxy_answer(t, id, headers, fingerprint, who, rules)->Ok_0;
            let s = t.clients[id].settings.proxy->0;
            let token = cookie_faults(
                header_values(headers, "cookie"@),
                app_cookie_name(s, id, false),
            )->Ok_0->0;
            let p = t.proxy_sessions[digest_of(token)];
            &&& who.accepted
            &&& t.clients[id].enabled && t.clients[id].settings.proxy is Some
            &&& t.proxy_sessions.dom().contains(digest_of(token))
            &&& p.client_id == id && p.fingerprint == fingerprint
            &&& p.expires_at > t.now && out.0 == p.expires_at
            &&& t.sessions.dom().contains(p.identity.session_id)
            &&& t.sessions[p.identity.session_id].expires_at > t.now
            &&& header_values(out.1, "x-authentik-username"@) == seq![Some(who.user.username)]
            &&& header_values(out.1, "x-authentik-uid"@) == seq![Some(who.subject)]
            &&& header_values(out.1, "x-authentik-name"@) == seq![Some(who.user.display_name)]
            &&& header_values(out.1, "x-auth-user"@) == seq![Some(who.user.username)]
            &&& header_values(out.1, "x-auth-sub"@) == seq![Some(who.subject)]
            &&& header_values(out.1, "x-authentik-email"@) == seq![
                Some(
                    if t.clients[id].scopes.contains("email"@) && who.user.email is Some {
                        who.user.email->0
                    } else {
                        ""@
                    },
                ),
            ]
            &&& header_values(out.1, "x-authentik-groups"@) == seq![
                Some(
                    if t.clients[id].scopes.contains("groups"@) {
                        joined(in_order(who.groups), "|"@)
                    } else {
                        ""@
                    },
                ),
            ]
        }),
{
    let out = proxy_answer(t, id, headers, fingerprint, who, rules)->Ok_0;
    lemma_identity_header_names();
    reveal_with_fuel(crate::headers::header_values, 9);
    let h = out.1;
    assert(h.len() == 8);
    let h7 = h.drop_last();
    let h6 = h7.drop_last();
    let h5 = h6.drop_last();
    let h4 = h5.drop_last();
    let h3 = h4.drop_last();
    let h2 = h3.drop_last();
    let h1 = h2.drop_last();
    assert(h1.drop_last().len() == 0);
}

proof fn lemma_identity_header_names()
    ensures
        "x-riauth-app-cookie"@ != "x-authentik-username"@,
        "x-riauth-app-cookie"@ != "x-authentik-uid"@,
        "x-riauth-app-cookie"@ != "x-authentik-name"@,
        "x-riauth-app-cookie"@ != "x-authentik-email"@,
        "x-riauth-app-cookie"@ != "x-authentik-groups"@,
        "x-riauth-app-cookie"@ != "x-auth-user"@,
        "x-riauth-app-cookie"@ != "x-auth-sub"@,
        "x-authentik-username"@ != "x-authentik-uid"@,
        "x-authentik-username"@ != "x-authentik-name"@,
        "x-authentik-username"@ != "x-authentik-email"@,
        "x-authentik-username"@ != "x-authentik-groups"@,
        "x-authentik-username"@ != "x-auth-user"@,
        "x-authentik-username"@ != "x-auth-sub"@,
        "x-authentik-uid"@ != "x-authentik-name"@,
        "x-authentik-uid"@ != "x-authentik-email"@,
        "x-authentik-uid"@ != "x-authentik-groups"@,
        "x-authentik-uid"@ != "x-auth-user"@,
        "x-authentik-uid"@ != "x-auth-sub"@,
        "x-authentik-name"@ != "x-authentik-email"@,
        "x-authentik-name"@ != "x-authentik-groups"@,
        "x-authentik-name"@ != "x-auth-user"@,
        "x-authentik-name"@ != "x-auth-sub"@,
        "x-authentik-email"@ != "x-authentik-groups"@,
        "x-authentik-email"@ != "x-auth-user"@,
        "x-authentik-email"@ != "x-auth-sub"@,
        "x-authentik-groups"@ != "x-auth-user"@,
        "x-authentik-groups"@ != "x-auth-sub"@,
        "x-auth-user"@ != "x-auth-sub"@,
{
    reveal_strlit("x-riauth-app-cookie");
    reveal_strlit("x-authentik-username");
    reveal_strlit("x-authentik-uid");
    reveal_strlit("x-authentik-name");
    reveal_strlit("x-authentik-email");
    reveal_strlit("x-authentik-groups");
    reveal_strlit("x-auth-user");
    reveal_strlit("x-auth-sub");
    assert("x-riauth-app-cookie"@.len() == 19);
    assert("x-authentik-username"@.len() == 20);
    assert("x-authentik-uid"@.len() == 15);
    assert("x-authentik-name"@.len() == 16);
    assert("x-authentik-email"@.len() == 17);
    assert("x-authentik-groups"@.len() == 18);
    assert("x-auth-user"@.len() == 11);
    assert("x-auth-sub"@.len() == 10);
}

/// An application's browser comes back with the state that it was sent with, in the same browser, from the
/// provider that it was sent to, and in time.
pub proof fn callbacks_come_from_the_browser_that_was_sent(
    t: TxModel,
    cfg: ConfigModel,
    id: Seq<char>,
    headers: Seq<HeaderModel>,
    pairs: Seq<(Seq<char>, Seq<char>)>,
    fingerprint: Seq<char>,
    rules: RulesModel,
)
    requires
        claimed(t, cfg, id, true, headers, pairs, fingerprint, rules).1 is Ok,
    ensures
        ({
            let out = claimed(t, cfg, id, true, headers, pairs, fingerprint, rules);
            let c = t.clients[id];
            let params = callback_map(pairs)->0;
            let key = digest_of(params["state"@]);
            let p = t.proxy_pending[key];
            let browser = cookie_faults(
                header_values(headers, "cookie"@),
                app_cookie_name(c.settings.proxy->0, id, true),
            )->Ok_0->0;
            &&& params.dom().contains("state"@) && params.dom().contains("code"@)
                && params.dom().contains("iss"@) && !params.dom().contains("error"@)
            &&& t.proxy_pending.dom().contains(key)
            &&& !p.claimed && p.expires_at > t.now && p.client_id == id
            &&& p.fingerprint == fingerprint
            &&& digest_of(browser) == p.browser_hash
            &&& params["iss"@] == if c.settings.issuer is Some {
                c.settings.issuer->0
            } else {
                cfg.issuer
            }
            &&& (out.1->Ok_0).1 == params["code"@]
            &&& (out.1->Ok_0).2 == (c.settings.proxy->0).external_origin + "/outpost/"@ + id
                + "/callback"@
            &&& out.0.proxy_pending[key].claimed
        }),
        claimed(t, cfg, id, false, headers, pairs, fingerprint, rules).1 is Err,
{
}

/// A session of an application is ended by the application's own pages, and only a session of it.
pub proof fn sessions_are_ended_by_their_application(
    t: TxModel,
    id: Seq<char>,
    headers: Seq<HeaderModel>,
    rules: RulesModel,
)
    requires
        logout_check(t, id, headers, rules) is Ok,
    ensures
        ({
            let out = logout_check(t, id, headers, rules)->Ok_0;
            let token = cookie_faults(
                header_values(headers, "cookie"@),
                app_cookie_name(out.0, id, false),
            );
            &&& Some(out.0) == t.clients[id].settings.proxy
            &&& out.1 matches Some(k) ==> t.proxy_sessions.dom().contains(k)
                && t.proxy_sessions[k].client_id == id && (token matches Ok(Some(v)) && k == digest_of(
                v,
            ))
            &&& (token matches Ok(Some(v)) && t.proxy_sessions.dom().contains(digest_of(v))) ==> out.1
                is Some
            &&& header_values(headers, "x-original-url"@).len() == 0 ==> one_value(
                headers,
                "origin"@,
            ) == Ok::<Seq<char>, Failure>(out.0.external_origin)
        }),
{
}

/// What a logout at an application does: the session whose cookie came with it ends, and the browser
/// forgets the cookie.
pub open spec fn proxy_logged_out(
    t: TxModel,
    trusted: bool,
    id: Seq<char>,
    headers: Seq<HeaderModel>,
    rules: RulesModel,
) -> (TxModel, Result<BrowserReplyModel, Failure>) {
    if !trusted {
        (t, Err(Failure::Forbidden))
    } else {
        match logout_check(t, id, headers, rules) {
            Err(f) => (t, Err(f)),
            Ok((s, key)) => (
                match key {
                    None => t,
                    Some(k) => audited(
                        TxModel { proxy_sessions: t.proxy_sessions.remove(k), ..t },
                        t.proxy_sessions[k].identity.user_id,
                        "proxy.session_revoke"@,
                        id,
                    ),
                },
                Ok(
                    body_model(
                        JsonModel::Object(seq![("logged_out"@, JsonModel::Bool(true))]),
                        seq![cookie_text(s, id, false, ""@, 0)],
                    ),
                ),
            ),
        }
    }
}

/// A session that was logged out lets no request through.
pub proof fn logged_out_sessions_pass_nothing(
    t: TxModel,
    id: Seq<char>,
    headers: Seq<HeaderModel>,
    rules: RulesModel,
    token: Seq<char>,
)
    requires
        proxy_logged_out(t, true, id, headers, rules).1 is Ok,
        t.clients[id].settings.proxy is Some,
        cookie_faults(
            header_values(headers, "cookie"@),
            app_cookie_name(t.clients[id].settings.proxy->0, id, false),
        ) == Ok::<Option<Seq<char>>, Failure>(Some(token)),
    ensures
        !proxy_logged_out(t, true, id, headers, rules).0.proxy_sessions.dom().contains(
            digest_of(token),
        ),
        forall|k: Seq<char>|
            k != digest_of(token) ==> #[trigger] proxy_logged_out(
                t,
                true,
                id,
                headers,
                rules,
            ).0.proxy_sessions[k] == t.proxy_sessions[k],
        proxy_logged_out(t, false, id, headers, rules).1 is Err,
{
}

/// A proxy may be given to a public web client that asks for a login, returns to the proxy's own
/// address and is not held to more than a browser can do; its sessions last a minute to a day.
pub proof fn proxies_are_for_public_web_clients(s: SettingsModel, c: ClientModel, rules: RulesModel)
    ensures
        settings_check(s, c, rules) is Ok ==> {
            &&& rules.server_urls.contains(s.external_origin)
            &&& url_of(s.external_origin) is Some && (url_of(s.external_origin)->0).origin == s.external_origin
            &&& 60 <= s.session_ttl <= 86400
            &&& c.secret_hash is None && !c.service && !c.settings.native
            &&& c.scopes.contains("openid"@) && c.scopes.contains("profile"@)
            &&& c.redirect_uris.contains(callback_url(s, c.id))
            &&& !c.settings.dpop_bound_access_tokens
            &&& !c.settings.require_signed_request
            &&& !c.settings.require_pushed_authorization_requests
            &&& c.settings.allowed_grants.len() > 0 ==> c.settings.allowed_grants.contains(
                "authorization_code"@,
            )
            &&& s.domain matches Some(d) ==> domain_check(d, s.external_origin, rules) is Ok
        },
        rules.server_urls.contains(s.external_origin) && url_of(s.external_origin) is Some && (url_of(
            s.external_origin,
        )->0).origin == s.external_origin && 60 <= s.session_ttl <= 86400 && s.domain is None
            && c.secret_hash is None && c.settings.token_endpoint_auth_method is None && !c.service
            && !c.settings.native && c.scopes.contains("openid"@) && c.scopes.contains("profile"@)
            && c.redirect_uris.contains(callback_url(s, c.id)) && !c.settings.dpop_bound_access_tokens
            && !c.settings.require_signed_request && !c.settings.require_pushed_authorization_requests
            && c.settings.allowed_grants.contains("authorization_code"@) ==> settings_check(s, c, rules) is Ok,
{
}

/// Users are sent back to an address of the application itself, with nothing of the proxy's own and no
/// credentials in it.
pub proof fn users_return_to_their_application(s: SettingsModel, value: Seq<char>)
    ensures
        target_check(s, value) is Ok <==> {
            &&& byte_count(value) <= 8192
            &&& !some_control(value)
            &&& !value.contains('\\')
            &&& url_of(value) is Some
            &&& (url_of(value)->0).origin == s.external_origin || (s.domain is Some && (
            s.domain->0).application_origins.contains((url_of(value)->0).origin))
            &&& (url_of(value)->0).username.len() == 0
            &&& (url_of(value)->0).password is None
            &&& (url_of(value)->0).fragment is None
            &&& !has_prefix((url_of(value)->0).path, "/outpost/"@)
        },
        target_check(s, value) is Ok ==> target_check(s, value)->Ok_0 == (url_of(value)->0).text,
{
}

/// A shared cookie is for one registrable domain and for applications under it.
pub proof fn shared_cookies_are_for_one_domain(d: DomainModel, external: Seq<char>, rules: RulesModel)
    requires
        domain_check(d, external, rules) is Ok,
    ensures
        registrable(d.cookie_domain) == Some(d.cookie_domain),
        !has_prefix(d.cookie_domain, "."@),
        1 <= d.application_origins.len() <= 32,
        domain_origin_check(external, d.cookie_domain, rules) is Ok,
        url_of("https://"@ + d.cookie_domain) is Some,
{
}

/// A login is asked for as a code for the application, with a fresh state and nonce and the challenge
/// of the verifier.
pub proof fn logins_are_asked_for_with_a_challenge(
    c: ClientModel,
    s: SettingsModel,
    id: Seq<char>,
    state: Seq<char>,
    nonce: Seq<char>,
    verifier: Seq<char>,
)
    ensures
        ({
            let p = login_pairs(c, s, id, state, nonce, verifier);
            &&& p.contains(("response_type"@, "code"@))
            &&& p.contains(("client_id"@, id))
            &&& p.contains(("redirect_uri"@, callback_url(s, id)))
            &&& p.contains(("state"@, state))
            &&& p.contains(("nonce"@, nonce))
            &&& p.contains(("code_challenge"@, digest_of(verifier)))
            &&& p.contains(("code_challenge_method"@, "S256"@))
            &&& p.contains(("scope"@, joined(proxy_scopes(c), " "@)))
            &&& p.len() == 9
        }),
{
    let p = login_pairs(c, s, id, state, nonce, verifier);
    assert(p[0] == ("response_type"@, "code"@));
    assert(p[2] == ("client_id"@, id));
    assert(p[3] == ("redirect_uri"@, callback_url(s, id)));
    assert(p[4] == ("scope"@, joined(proxy_scopes(c), " "@)));
    assert(p[5] == ("state"@, state));
    assert(p[6] == ("nonce"@, nonce));
    assert(p[7] == ("code_challenge"@, digest_of(verifier)));
    assert(p[8] == ("code_challenge_method"@, "S256"@));
}

/// An application is told its user's name, subject and display name; the address and the groups only
/// if it may know them.
pub proof fn applications_are_told_what_they_may_know(c: ClientModel, who: ProxyIdentityModel, cookies: Seq<char>)
    ensures
        ({
            let h = identity_headers(c, who, cookies);
            let value = |name: Seq<char>, v: Seq<char>|
                h.contains((HeaderModel { name, value: Some(v), raw: Seq::empty() }));
            &&& value("x-authentik-username"@, who.user.username)
            &&& value("x-auth-user"@, who.user.username)
            &&& value("x-authentik-uid"@, who.subject)
            &&& value("x-auth-sub"@, who.subject)
            &&& value("x-authentik-name"@, who.user.display_name)
            &&& value("x-riauth-app-cookie"@, cookies)
            &&& c.scopes.contains("email"@) && who.user.email is Some ==> value(
                "x-authentik-email"@,
                who.user.email->0,
            )
            &&& !c.scopes.contains("email"@) ==> value("x-authentik-email"@, ""@)
            &&& c.scopes.contains("groups"@) ==> value(
                "x-authentik-groups"@,
                joined(in_order(who.groups), "|"@),
            )
            &&& !c.scopes.contains("groups"@) ==> value("x-authentik-groups"@, ""@)
        }),
{
    let h = identity_headers(c, who, cookies);
    assert(h[0].value == Some(cookies));
    assert(h[1].name == "x-authentik-username"@);
    assert(h[2].name == "x-authentik-uid"@);
    assert(h[3].name == "x-authentik-name"@);
    assert(h[4].name == "x-authentik-email"@);
    assert(h[5].name == "x-authentik-groups"@);
    assert(h[6].name == "x-auth-user"@);
    assert(h[7].name == "x-auth-sub"@);
}

/// A logout is asked for at the proxy's own address, or at the logout path of one of its applications.
pub proof fn logouts_are_asked_at_the_application(s: SettingsModel, id: Seq<char>, headers: Seq<HeaderModel>)
    ensures
        header_values(headers, "x-original-url"@).len() == 0 ==> logout_origin(s, id, headers) == Ok::<
            Seq<char>,
            Failure,
        >(s.external_origin),
        header_values(headers, "x-original-url"@).len() > 0 && logout_origin(s, id, headers) is Ok ==> {
            let u = url_of(one_value(headers, "x-original-url"@)->Ok_0)->0;
            &&& one_value(headers, "x-original-url"@) is Ok
            &&& logout_origin(s, id, headers)->Ok_0 == u.origin
            &&& u.origin == s.external_origin || (s.domain is Some && (
            s.domain->0).application_origins.contains(u.origin))
            &&& u.path == "/outpost/"@ + id + "/logout"@
            &&& u.query is None && u.fragment is None
        },
{
}

/// Logins that were begun and sessions at applications are forgotten when they are over.
pub proof fn old_proxy_sessions_are_forgotten(t: TxModel, at: u64, k: Seq<char>, user_id: Seq<char>, cid: Seq<char>)
    ensures
        without(t.proxy_pending, old_pending(at)).dom().contains(k) <==> t.proxy_pending.dom().contains(k) && at
            <= t.proxy_pending[k].expires_at,
        without(t.proxy_sessions, old_session(at)).dom().contains(k) <==> t.proxy_sessions.dom().contains(k)
            && at <= t.proxy_sessions[k].expires_at,
        without(t.proxy_sessions, users_proxy_session(user_id, cid)).dom().contains(k)
            <==> t.proxy_sessions.dom().contains(k) && !(t.proxy_sessions[k].client_id == cid
            && t.proxy_sessions[k].identity.user_id == user_id),
{
    purges_leave_what_does_not_match(t.proxy_pending, old_pending(at), k);
    purges_leave_what_does_not_match(t.proxy_sessions, old_session(at), k);
    purges_leave_what_does_not_match(t.proxy_sessions, users_proxy_session(user_id, cid), k);
}

/// A cookie is kept from scripts and from other sites, lasts as long as it says, and is sent over
/// encrypted connections only where the application is.
pub proof fn cookies_are_kept_from_scripts(
    s: SettingsModel,
    id: Seq<char>,
    binding: bool,
    value: Seq<char>,
    ttl: u64,
)
    ensures
        ({
            let c = cookie_text(s, id, binding, value, ttl);
            &&& has_prefix(c, app_cookie_name(s, id, binding) + "="@ + value)
            &&& contains_text(c, "; HttpOnly"@)
            &&& contains_text(c, "; SameSite=Lax"@)
            &&& contains_text(c, "; Path=/"@)
            &&& contains_text(c, "; Max-Age="@ + decimal(ttl as nat))
            &&& has_prefix(s.external_origin, "https://"@) ==> contains_text(c, "; Secure"@)
            &&& !binding && s.domain is Some ==> has_suffix(c, "; Domain="@ + (s.domain->0).cookie_domain)
        }),
{
    let c = cookie_text(s, id, binding, value, ttl);
    let head = app_cookie_name(s, id, binding) + "="@ + value;
    let fixed = "; Path=/; HttpOnly; SameSite=Lax; Max-Age="@;
    let n = decimal(ttl as nat);
    let sec = if secure(s) {
        "; Secure"@
    } else {
        ""@
    };
    let dom = if !binding && s.domain is Some {
        "; Domain="@ + (s.domain->0).cookie_domain
    } else {
        ""@
    };
    lemma_fixed_attributes();
    assert(c == head + fixed + n + sec + dom);
    lemma_cookie_parts(head, n, sec, dom);
}

proof fn lemma_fixed_attributes()
    ensures
        "; Path=/; HttpOnly; SameSite=Lax; Max-Age="@ == "; Path=/"@ + "; HttpOnly"@ + "; SameSite=Lax"@
            + "; Max-Age="@,
{
    reveal_strlit("; Path=/; HttpOnly; SameSite=Lax; Max-Age=");
    reveal_strlit("; Path=/");
    reveal_strlit("; HttpOnly");
    reveal_strlit("; SameSite=Lax");
    reveal_strlit("; Max-Age=");
    assert("; Path=/; HttpOnly; SameSite=Lax; Max-Age="@ =~= "; Path=/"@ + "; HttpOnly"@ + "; SameSite=Lax"@
        + "; Max-Age="@);
}

proof fn lemma_in_the_middle(c: Seq<char>, a: Seq<char>, p: Seq<char>, b: Seq<char>)
    requires
        c == a + p + b,
    ensures
        contains_text(c, p),
{
    assert(c.subrange(a.len() as int, (a.len() + p.len()) as int) =~= p);
    assert(occurs_at(c, p, a.len() as int));
}

proof fn lemma_cookie_parts(head: Seq<char>, n: Seq<char>, sec: Seq<char>, dom: Seq<char>)
    ensures
        ({
            let c = head + ("; Path=/"@ + "; HttpOnly"@ + "; SameSite=Lax"@ + "; Max-Age="@) + n + sec + dom;
            &&& has_prefix(c, head)
            &&& contains_text(c, "; Path=/"@)
            &&& contains_text(c, "; HttpOnly"@)
            &&& contains_text(c, "; SameSite=Lax"@)
            &&& contains_text(c, "; Max-Age="@ + n)
            &&& contains_text(c, sec)
            &&& has_suffix(c, dom)
        }),
{
    let path = "; Path=/"@;
    let only = "; HttpOnly"@;
    let site = "; SameSite=Lax"@;
    let age = "; Max-Age="@;
    let c = head + (path + only + site + age) + n + sec + dom;
    assert(c =~= head + path + (only + site + age + n + sec + dom));
    lemma_in_the_middle(c, head, path, only + site + age + n + sec + dom);
    assert(c =~= (head + path) + only + (site + age + n + sec + dom));
    lemma_in_the_middle(c, head + path, only, site + age + n + sec + dom);
    assert(c =~= (head + path + only) + site + (age + n + sec + dom));
    lemma_in_the_middle(c, head + path + only, site, age + n + sec + dom);
    assert(c =~= (head + path + only + site) + (age + n) + (sec + dom));
    lemma_in_the_middle(c, head + path + only + site, age + n, sec + dom);
    lemma_in_the_middle(c, head + (path + only + site + age) + n, sec, dom);
    assert(c.take(head.len() as int) =~= head);
    assert(c.skip(c.len() - dom.len()) =~= dom);
}

/// A reader without a session is sent to the start of the application's own proxy, and back to where
/// they were.
pub proof fn readers_are_sent_to_their_proxy(t: TxModel, id: Seq<char>, headers: Seq<HeaderModel>, rules: RulesModel)
    ensures
        login_url_check(t, id, headers, rules) matches Ok((start, target)) ==> {
            let s = t.clients[id].settings.proxy->0;
            &&& t.clients.dom().contains(id) && t.clients[id].enabled && t.clients[id].settings.proxy is Some
            &&& start == s.external_origin + "/outpost/"@ + id + "/start"@
            &&& one_value(headers, "x-original-url"@) is Ok
            &&& target_check(s, one_value(headers, "x-original-url"@)->Ok_0) == Ok::<Seq<char>, Failure>(target)
        },
{
}

/// A shared cookie reaches encrypted origins of the domain itself and below it.
pub proof fn shared_origins_lie_below_their_domain(origin: Seq<char>, u: UrlModel, parent: Seq<char>, rules: RulesModel)
    ensures
        under_domain(origin, u, parent) <==> u.scheme == "https"@ && u.origin == origin && u.host is Some && (
        u.host->0 == parent || has_suffix(u.host->0, "."@ + parent)),
        domain_origin_check(origin, parent, rules) is Ok <==> rules.server_urls.contains(origin) && url_of(
            origin,
        ) is Some && under_domain(origin, url_of(origin)->0, parent),
{
}

/// A cookie counts if it comes once and is short.
pub proof fn cookies_come_once(found: Option<Seq<char>>, v: Seq<char>, w: Seq<char>)
    ensures
        taken_cookie(found, Seq::empty()) == Ok::<Option<Seq<char>>, Failure>(found),
        taken_cookie(None, seq![v]) is Ok <==> byte_count(v) <= 256,
        byte_count(v) <= 256 ==> taken_cookie(None, seq![v]) == Ok::<Option<Seq<char>>, Failure>(Some(v)),
        taken_cookie(None, seq![v, w]) is Err,
        found is Some ==> taken_cookie(found, seq![v]) is Err,
{
}

/// A callback is taken from the browser that was sent, once, while it waits, from the issuer and for the
/// settings that it was sent under.
pub proof fn callbacks_are_taken_while_they_wait(
    t: TxModel,
    cfg: ConfigModel,
    id: Seq<char>,
    headers: Seq<HeaderModel>,
    params: Map<Seq<char>, Seq<char>>,
    fingerprint: Seq<char>,
    rules: RulesModel,
)
    requires
        claim_check(t, cfg, id, headers, params, fingerprint, rules) is Ok,
    ensures
        ({
            let key = digest_of(params["state"@]);
            let (s, p) = claim_check(t, cfg, id, headers, params, fingerprint, rules)->Ok_0;
            &&& params.dom().contains("state"@) && params.dom().contains("iss"@)
            &&& t.clients.dom().contains(id) && t.clients[id].enabled && t.clients[id].settings.proxy == Some(s)
            &&& t.proxy_pending.dom().contains(key) && p == t.proxy_pending[key]
            &&& p.expires_at > t.now && !p.claimed && p.client_id == id
            &&& p.fingerprint == fingerprint
            &&& params["iss"@] == issuer_of(cfg.issuer, t.clients[id])
            &&& cookie_faults(header_values(headers, "cookie"@), app_cookie_name(s, id, true)) matches Ok(
                Some(browser),
            ) && digest_of(browser) == p.browser_hash
        }),
{
}

/// A session is opened for a login that was made for it, whose token, family and session all stand, and
/// lasts no longer than the login.
pub proof fn sessions_are_opened_for_their_login(
    t: TxModel,
    id: Seq<char>,
    p: PendingModel,
    access: Seq<char>,
    fingerprint: Seq<char>,
    identity_ok: bool,
    rules: RulesModel,
)
    requires
        proxy_client(t, id, rules) is Ok,
        t.clients[id].settings.proxy is Some,
        t.now + (t.clients[id].settings.proxy->0).session_ttl <= u64::MAX,
    ensures
        open_check(t, id, p, access, fingerprint, identity_ok, rules) is Ok <==> {
            let g = t.access[digest_of(access)];
            let sid = (g.identity->0).session_id;
            &&& fingerprint == p.fingerprint
            &&& t.access.dom().contains(digest_of(access))
            &&& g.client_id == id
            &&& g.nonce == Some(p.nonce)
            &&& g.expires_at > t.now
            &&& g.identity is Some
            &&& identity_ok
            &&& t.sessions.dom().contains(sid) && t.sessions[sid].expires_at > t.now
            &&& t.families.dom().contains(g.family_id) && !t.families[g.family_id].revoked
        },
        open_check(t, id, p, access, fingerprint, identity_ok, rules) matches Ok((s, g)) ==> g
            == t.access[digest_of(access)] && proxy_expiry(t, s, g) <= t.sessions[(
        g.identity->0).session_id].expires_at && proxy_expiry(t, s, g) <= t.now + s.session_ttl && (
        proxy_expiry(t, s, g) == t.now + s.session_ttl || proxy_expiry(t, s, g) == t.sessions[(
        g.identity->0).session_id].expires_at),
{
}

/// A browser that is sent to log in gets the cookie that binds it, for five minutes, and nothing that a
/// session would get.
pub proof fn sent_browsers_get_their_binding(
    t: TxModel,
    cfg: ConfigModel,
    id: Seq<char>,
    return_to: Seq<char>,
    fingerprint: Seq<char>,
    rules: RulesModel,
)
    requires
        started(t, cfg, id, true, return_to, fingerprint, rules).1 is Ok,
    ensures
        ({
            let r = started(t, cfg, id, true, return_to, fingerprint, rules).1->Ok_0;
            let s = t.clients[id].settings.proxy->0;
            let binding = "ri_proxy_binding_"@ + next_id(drawn(t));
            &&& r.cookies.len() == 1
            &&& has_prefix(r.cookies[0], app_cookie_name(s, id, true) + "="@ + binding)
            &&& contains_text(r.cookies[0], "; Max-Age="@ + decimal(300))
            &&& contains_text(r.cookies[0], "; HttpOnly"@)
            &&& r.location is Some
            &&& r.body == JsonModel::Null
        }),
{
    let s = t.clients[id].settings.proxy->0;
    cookies_are_kept_from_scripts(s, id, true, "ri_proxy_binding_"@ + next_id(drawn(t)), 300);
}

} // verus!
