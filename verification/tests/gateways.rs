//! The gateways: RADIUS, LDAP, the proxy, the portal and the database pool.
use riauth::engine::Config;
use riauth::engine::Core;
use riauth::error::Error;
use riauth::headers::Header;
use riauth::json::Json;
use riauth::keyring::Keys;
use riauth::keyring::SigningKey;
use riauth::ldap_server::connection::Action;
use riauth::ldap_server::connection::Auth;
use riauth::ldap_server::connection::BindOutcome;
use riauth::ldap_server::connection::Connection;
use riauth::ldap_server::connection::Control;
use riauth::ldap_server::connection::Operation;
use riauth::ldap_server::connection::Request;
use riauth::ldap_server::connection::ResultCode;
use riauth::ldap_server::filter::Entry;
use riauth::ldap_server::filter::EntryAttribute;
use riauth::ldap_server::filter::Filter;
use riauth::ldap_server::filter::Substrings;
use riauth::ldap_server::search::Scope;
use riauth::ldap_server::search::SearchRequest;
use riauth::model::Client;
use riauth::model::Identity;
use riauth::model::ProviderSettings;
use riauth::model::Session;
use riauth::model::User;
use riauth::names::Names;
use riauth::portal::sign_in::Polled;
use riauth::portal::sign_in::UserCode;
use riauth::postgres_store::Acquire;
use riauth::postgres_store::Connections;
use riauth::postgres_store::PostgresConfig;
use riauth::proxy_server::ProxyRequest;
use riauth::radius::cache::Claim;
use riauth::radius::cache::Outcome;
use riauth::radius::eap::Conversation;
use riauth::radius::eap::Received;
use riauth::radius::enrollment::Judgement;
use riauth::radius::packet::Packet;
use riauth::rules::Rules;
use riauth::store::Tx;
use riauth::table::Table;

fn s(t: &str) -> String {
    t.to_owned()
}

fn names(list: &[&str]) -> Names {
    let mut out = Names::new();
    for item in list {
        out.insert(item);
    }
    out
}

fn rules() -> Rules {
    Rules {
        bad_names: Names::new(),
        server_urls: Names::new(),
        acr_values: Names::new(),
        response_modes: Names::new(),
        refused: Names::new(),
    }
}

fn store(now: u64) -> Tx {
    let active = SigningKey { kid: s("k1"), algorithm: s("EdDSA") };
    Tx::new(now, "seed", Keys { active, retired: Vec::new() })
}

fn provider() -> Core {
    Core {
        config: Config {
            issuer: s("https://id.test"),
            access_token_ttl: 600,
            refresh_token_ttl: 86_400,
            session_ttl: 3600,
            password_history: 3,
            signers: Table::new(),
            mail: None,
            fresh_seconds: 900,
            terminal_warn_seconds: 300,
            pam_approvers: Table::new(),
            trusted_proxies: names(&["10.0.0.1"]),
            client_certificates: None,
            native_tls: true,
        },
    }
}

fn user(id: &str, username: &str) -> User {
    User {
        has_passkeys: false,
        totp_settings: Json::Null,
        pairwise_seed: s("seed"),
        id: s(id),
        username: s(username),
        email: None,
        display_name: s(username),
        password_hash: s("hash"),
        enabled: true,
        admin: false,
        epoch: 1,
        totp_secret: None,
        totp_pending: None,
        totp_last_step: None,
        created_at: 0,
        attributes: Table::new(),
        email_verified: false,
        subjects: Table::new(),
        recovery_codes: Names::new(),
    }
}

fn add_user(tx: &mut Tx, user: User) {
    let name = user.username.clone();
    let id = user.id.clone();
    tx.usernames.put(&name, id.clone());
    tx.users.put(&id, user);
}

fn client(id: &str) -> Client {
    let mut settings = ProviderSettings::plain();
    settings.allowed_grants = names(&[
        "authorization_code",
        "refresh_token",
        "client_credentials",
        "urn:ietf:params:oauth:grant-type:device_code",
    ]);
    Client {
        id: s(id),
        name: s(id),
        secret_hash: None,
        redirect_uris: vec![s("https://app.test/callback")],
        scopes: names(&["openid", "email"]),
        allowed_groups: Names::new(),
        require_mfa: false,
        enabled: true,
        service: false,
        settings,
    }
}

fn identity(user_id: &str, session_id: &str, auth_time: u64) -> Identity {
    Identity {
        amr: vec![s("pwd")],
        source: None,
        user_id: s(user_id),
        epoch: 1,
        mfa: false,
        auth_time,
        session_id: s(session_id),
    }
}

fn session(id: &str, user_id: &str, auth_time: u64) -> Session {
    Session {
        id: s(id),
        token_hash: s("token-hash"),
        identity: identity(user_id, id, auth_time),
        expires_at: auth_time + 3600,
        revoked: false,
    }
}

fn message<T>(r: &Result<T, Error>) -> String {
    match r {
        Ok(_) => s("ok"),
        Err(Error::Bad(m)) => format!("bad: {m}"),
        Err(Error::Oauth(code, m)) => format!("{code}: {m}"),
        Err(Error::Unauthorized) => s("unauthorized"),
        Err(Error::Forbidden) => s("forbidden"),
        Err(Error::Missing(m)) => format!("missing: {m}"),
        Err(Error::Conflict(m)) => format!("conflict: {m}"),
        Err(Error::Internal(m)) => format!("internal: {m}"),
        Err(Error::Reply(status, code, m)) => format!("{status} {code}: {m}"),
        Err(Error::Name(m)) => format!("name: {m}"),
        Err(Error::Refused(m)) => format!("refused: {m}"),
    }
}

fn header(name: &str, value: &str) -> Header {
    Header { name: s(name), value: Some(s(value)), raw: Vec::new() }
}

const NOW: u64 = 1_800_000_000;
const SECRET: &str = "secret-secret-16";
const REQUEST: &str = "0107003f000102030405060708090a0b0c0d0e0f0107616c69636502129b01e185b8d28e92dfed138deec3b4cd50124e51dddc85e3abbb7f5663df93b0c999";
const RESPONSE: &str = "02070026467af0a2987bd4e5dd6ff1004c8a6c9b5012cf6d403f45f4a83b6065e47a41e890d8";

fn hex(t: &str) -> Vec<u8> {
    (0..t.len() / 2).map(|i| u8::from_str_radix(&t[2 * i..2 * i + 2], 16).unwrap()).collect()
}

fn secret() -> Vec<u8> {
    SECRET.as_bytes().to_vec()
}

#[test]
fn a_radius_request_is_authenticated_and_answered() {
    let packet = riauth::radius::packet::decode(&hex(REQUEST), &secret()).ok().unwrap();
    assert_eq!(packet.identifier, 7);
    assert_eq!(packet.attr(1).unwrap(), b"alice");
    assert_eq!(packet.password(&secret()).ok().unwrap(), "hunter2;123456");
    let (name, password) = riauth::radius::cache::read_credentials(&packet, &secret(), &rules()).ok().unwrap();
    assert_eq!(name, "alice");
    assert_eq!(password, "hunter2;123456");
    assert_eq!(packet.response(2, &secret(), &Vec::new()).ok().unwrap(), hex(RESPONSE));
    let mut forged = hex(REQUEST);
    forged[22] ^= 1;
    assert_eq!(message(&riauth::radius::packet::decode(&forged, &secret())), "forbidden");
    assert!(riauth::radius::packet::decode(&hex(REQUEST), &b"other".to_vec()).is_err());
    assert!(riauth::radius::packet::decode(&vec![1, 2, 3], &secret()).is_err());
}

#[test]
fn the_one_time_code_follows_the_last_semicolon() {
    let mut tx = store(NOW);
    let mut alice = user("u-1", "alice");
    alice.totp_secret = Some(s("totp"));
    add_user(&mut tx, alice);
    add_user(&mut tx, user("u-2", "bob"));
    let split = |name: &str, password: &str| riauth::radius::cache::split_pap(&tx, name, password);
    assert_eq!(split("alice", "a;b;123456"), (s("a;b"), Some(s("123456"))));
    assert_eq!(split("alice", "plain"), (s("plain"), None));
    assert_eq!(split("bob", "a;b"), (s("a;b"), None));
    assert_eq!(split("nobody", "a;b"), (s("a;b"), None));
    let ldap = riauth::ldap_server::connection::password_and_otp;
    assert_eq!(ldap("a;123456", true), (s("a"), Some(s("123456"))));
    assert_eq!(ldap("a;bcd", true), (s("a;bcd"), None));
    assert_eq!(ldap("a;123456", false), (s("a;123456"), None));
}

#[test]
fn a_radius_request_is_decided_once() {
    let idp = provider();
    let mut tx = store(NOW);
    let mut nas = client("nas");
    nas.scopes = names(&["openid", "radius"]);
    nas.settings.radius = Some(riauth::radius::Settings { eap_tls: false, reply: Vec::new() });
    tx.clients.put("nas", nas);
    let packet = riauth::radius::packet::decode(&hex(REQUEST), &secret()).ok().unwrap();
    let key = riauth::radius::cache::request_key("wifi", "ap", SECRET, &hex(REQUEST));
    let fine = Judgement { authorization: None, step_up: false, claims: None };
    let arrive = |tx: &mut Tx| idp.radius_arrival(tx, &packet, &secret(), &key, "nas", "print", &fine, &rules());
    let first = arrive(&mut tx);
    assert_eq!(message(&first), "ok");
    assert!(matches!(first, Ok(Claim::Fresh)));
    assert!(matches!(arrive(&mut tx), Ok(Claim::Seen(None))));
    let (answer, accepted) = idp
        .radius_password_finish(&mut tx, &packet, &secret(), &key, "wifi/ap", "nas", "print", &None, &fine, &rules())
        .ok()
        .unwrap();
    assert!(!accepted);
    assert_eq!(answer[0], 3);
    assert!(matches!(arrive(&mut tx), Ok(Claim::Seen(Some(kept))) if kept == answer));
}

#[test]
fn a_flight_travels_in_fragments() {
    let (mut talk, start) = Conversation::open("context", "profile", NOW, 9, 300);
    assert_eq!(start[0], 1);
    assert!(talk.belongs("context", NOW));
    assert!(!talk.belongs("other", NOW));
    assert!(!talk.belongs("context", NOW + 3600));
    assert!(talk.trusted("profile"));
    assert!(!talk.trusted("another"));
    let hello = riauth::radius::eap::write_packet(2, start[1], Some(13), &vec![0, 1, 2, 3]);
    match talk.receive(&hello) {
        Ok(Received::Flight(bytes)) => assert_eq!(bytes, vec![1, 2, 3]),
        _ => panic!("a whole flight was expected"),
    }
    let flight: Vec<u8> = (0..700u32).map(|i| (i % 251) as u8).collect();
    let first = talk.respond(None, &flight).ok().unwrap();
    assert!(first.len() <= 310);
    assert_eq!(first[5] & 0xc0, 0xc0);
    let mut carried = first[10..].to_vec();
    let mut last = first;
    while last[5] & 0x40 != 0 {
        let ack = riauth::radius::eap::write_packet(2, last[1], Some(13), &vec![0]);
        match talk.receive(&ack) {
            Ok(Received::Reply(next)) => {
                carried.extend_from_slice(&next[6..]);
                last = next;
            }
            _ => panic!("a fragment was expected"),
        }
    }
    assert_eq!(carried, flight);
    let stray = riauth::radius::eap::write_packet(2, last[1].wrapping_add(5), Some(13), &vec![0]);
    assert!(talk.receive(&stray).is_err());
}

#[test]
fn eap_packets_are_carried_whole() {
    let eap: Vec<u8> = (0..600u32).map(|i| (i % 256) as u8).collect();
    let attrs = riauth::radius::eap::attributes(&eap, &Some(s("state")));
    let pieces: Vec<u8> = attrs.iter().filter(|a| a.0 == 79).flat_map(|a| a.1.clone()).collect();
    assert_eq!(pieces, eap);
    assert_eq!(attrs.iter().filter(|a| a.0 == 79).count(), 3);
    assert!(attrs.iter().any(|a| a.0 == 24 && a.1 == b"state"));
    let key = riauth::radius::eap::mppe(&vec![5; 32], &secret(), &vec![1; 16], 0x8001, 16);
    assert_eq!(&key[..6], &[0, 0, 1, 55, 16, key[5]]);
    assert_ne!(key, riauth::radius::eap::mppe(&vec![6; 32], &secret(), &vec![1; 16], 0x8001, 16));
}

#[test]
fn nothing_is_told_in_clear() {
    let mut line = Connection::open(false, false, true);
    let bind = Request::Bind { dn: s("cn=agent"), simple: Some(s("secret")) };
    let (_, action) = line.receive(1, &bind, &Vec::new());
    assert!(matches!(action, Action::BindResult(ResultCode::ConfidentialityRequired)));
    let search = Request::Search { base: s("dc=example") };
    let (_, action) = line.receive(2, &search, &Vec::new());
    assert!(matches!(action, Action::SearchResult(ResultCode::ConfidentialityRequired)));
    let (_, action) = line.receive(3, &Request::StartTls { value: false }, &Vec::new());
    assert!(matches!(action, Action::StartTls));
    line.encrypted();
    let (_, action) = line.receive(4, &bind, &Vec::new());
    assert!(matches!(action, Action::CheckBind { .. }));
    assert_eq!(line.bound(BindOutcome::Accepted(Auth::User(s("token")))), ResultCode::Success);
    let (ended, _) = line.receive(5, &bind, &Vec::new());
    assert!(matches!(ended, Some(Auth::User(t)) if t == "token"));
    assert!(line.auth.is_none());
    let (_, action) = line.receive(6, &Request::Unserved(Operation::Modify), &Vec::new());
    assert!(matches!(action, Action::Refuse(Operation::Modify, ResultCode::UnwillingToPerform)));
    let (_, action) = line.receive(7, &Request::WhoAmI { value: false }, &vec![Control::Critical]);
    assert!(matches!(action, Action::Refuse(Operation::Extended, ResultCode::UnavailableCriticalExtension)));
    let (_, action) = line.receive(0, &Request::Abandon, &Vec::new());
    assert!(matches!(action, Action::Close));
}

fn entry(dn: &str, attributes: &[(&str, &[&str])]) -> Entry {
    Entry {
        dn: s(dn),
        attributes: attributes
            .iter()
            .map(|a| EntryAttribute { name: s(a.0), vals: a.1.iter().map(|v| s(v)).collect() })
            .collect(),
    }
}

#[test]
fn pages_follow_each_other() {
    let mut line = Connection::open(true, false, false);
    let found: Vec<Entry> = (0..5).map(|i| entry(&format!("uid=u{i}"), &[])).collect();
    let query = SearchRequest {
        base: s("dc=example"),
        scope: Scope::Subtree,
        never_alias: true,
        sizelimit: 0,
        timelimit: 0,
        typesonly: false,
        filter: Filter::Present(s("objectClass")),
        attrs: Vec::new(),
    };
    let first = line.searched(&found, 1, &query, &Some((2, Vec::new())), "print", vec![1], NOW);
    assert_eq!(first.code, ResultCode::Success);
    assert_eq!(first.entries.len(), 2);
    let cookie = first.page.unwrap().cookie;
    assert_eq!(cookie, vec![1]);
    let second = line.searched(&found, 1, &query, &Some((2, cookie)), "print", vec![2], NOW);
    assert_eq!(second.entries[0].dn, "uid=u2");
    let stale = line.searched(&found, 2, &query, &Some((2, vec![2])), "print", vec![3], NOW);
    assert_ne!(stale.code, ResultCode::Success);
}

#[test]
fn filters_match_entries() {
    let row = entry("uid=alice,dc=example", &[("uid", &["alice"]), ("mail", &["Alice@Example.Test"])]);
    let matches = riauth::ldap_server::filter::matches_filter;
    assert!(matches(&Filter::Equality(s("MAIL"), s("alice@example.test")), &row));
    assert!(!matches(&Filter::Equality(s("uid"), s("bob")), &row));
    assert!(matches(&Filter::Present(s("uid")), &row));
    assert!(!matches(&Filter::Not(Box::new(Filter::Present(s("uid")))), &row));
    let start = Substrings { initial: Some(s("ali")), any: Vec::new(), last: Some(s("ce")) };
    assert!(matches(&Filter::Substring(s("uid"), start), &row));
    let both = Filter::And(vec![Filter::Present(s("uid")), Filter::Present(s("mail"))]);
    assert!(matches(&both, &row));
    assert!(!matches(&Filter::Or(Vec::new()), &row));
    assert!(riauth::ldap_server::filter::validate_filter(&Filter::Other).is_err());
    assert!(riauth::ldap_server::filter::validate_filter(&both).is_ok());
}

#[test]
fn identity_headers_never_pass() {
    assert!(riauth::proxy_server::identity_header("x-riauth-user"));
    assert!(!riauth::proxy_server::identity_header("accept"));
    let request = ProxyRequest {
        method: s("GET"),
        absolute: false,
        path: s("/"),
        path_query: s("/?a=1"),
        query: Some(s("a=1")),
        headers: vec![
            header("host", "app.test"),
            header("accept", "text/html"),
            header("x-riauth-user", "mallory"),
            header("cookie", "a=b"),
            header("connection", "x-private"),
            header("x-private", "1"),
        ],
    };
    let route = riauth::proxy_server::Route {
        external: s("https://app.test"),
        target: riauth::proxy_server::Target {
            client_id: s("app"),
            upstream: s("https://upstream.test"),
            ca_file: None,
            allow_plain_http: false,
        },
    };
    let sent = riauth::proxy_server::forward(&request, &route, &vec![header("x-riauth-user", "alice")], "192.0.2.1", true).ok().unwrap();
    let value = |name: &str| {
        sent.headers.iter().filter(|h| h.name == name).map(|h| h.value.clone().unwrap()).collect::<Vec<_>>()
    };
    assert_eq!(value("x-riauth-user"), vec![s("alice")]);
    assert_eq!(value("accept"), vec![s("text/html")]);
    assert!(value("cookie").is_empty());
    assert!(value("x-private").is_empty());
    assert_eq!(value("x-forwarded-for"), vec![s("192.0.2.1")]);
    assert_eq!(value("x-forwarded-host"), vec![s("app.test")]);
    assert_eq!(value("x-forwarded-proto"), vec![s("https")]);
    assert_eq!(
        riauth::proxy_server::upstream_url(&route, "/?a=1").ok().unwrap(),
        "https://upstream.test/?a=1",
    );
}

#[test]
fn forwarded_targets_are_whole_urls() {
    let target = |proto: &str, host: &str, uri: &str| {
        riauth::outpost::forward::forwarded_target(&vec![
            header("x-forwarded-proto", proto),
            header("x-forwarded-host", host),
            header("x-forwarded-uri", uri),
        ])
    };
    assert_eq!(target("https", "app.test", "/a?b=c").ok().unwrap(), (s("https://app.test/a?b=c"), false));
    assert_eq!(target("wss", "app.test", "/a").ok().unwrap(), (s("https://app.test/a"), true));
    assert_eq!(message(&target("ftp", "app.test", "/")), "bad: Unsupported forwarded protocol");
    assert_eq!(message(&target("https", "user@app.test", "/")), "bad: Invalid forwarded host");
    assert_eq!(message(&target("https", "app.test", "//evil.test")), "bad: Invalid forwarded URI");
    assert!(riauth::outpost::forward::forwarded_target(&Vec::new()).is_err());
}

fn proxied(tx: &mut Tx) {
    let settings = riauth::outpost::Settings { domain: None, external_origin: s("https://app.test"), session_ttl: 600 };
    let mut app = client("app");
    app.scopes = names(&["openid", "profile"]);
    app.redirect_uris = vec![settings.callback("app")];
    app.settings.proxy = Some(settings);
    tx.clients.put("app", app);
}

fn proxy_rules() -> Rules {
    let mut r = rules();
    r.server_urls = names(&["https://app.test"]);
    r
}

#[test]
fn a_proxy_login_is_claimed_once() {
    let idp = provider();
    let mut tx = store(NOW);
    proxied(&mut tx);
    assert!(idp.outpost_start(&mut tx, "app", "192.0.2.9", "https://app.test/", "print", &proxy_rules()).is_err());
    assert!(idp.outpost_start(&mut tx, "app", "10.0.0.1", "https://evil.test/", "print", &proxy_rules()).is_err());
    let reply = idp.outpost_start(&mut tx, "app", "10.0.0.1", "https://app.test/a", "print", &proxy_rules()).ok().unwrap();
    let location = reply.location.unwrap();
    assert!(location.starts_with("https://id.test/oauth/authorize?response_type=code"));
    assert!(location.contains("client_id=app"));
    let state = location.split("state=").nth(1).unwrap().split('&').next().unwrap().to_owned();
    let pair = reply.cookies[0].split(';').next().unwrap().to_owned();
    let headers = vec![header("cookie", &pair)];
    let pairs = vec![(s("state"), state), (s("code"), s("ri_code_1")), (s("iss"), s("https://id.test"))];
    let mut answer = |tx: &mut Tx| idp.outpost_callback(tx, "app", "10.0.0.1", &headers, &pairs, "print", &proxy_rules());
    let first = answer(&mut tx);
    assert_eq!(message(&first), "ok");
    assert_eq!(first.ok().unwrap().0.return_to, "https://app.test/a");
    assert!(answer(&mut tx).is_err());
}

#[test]
fn proxy_cookies_hold_no_tokens() {
    let idp = provider();
    let mut tx = store(NOW);
    proxied(&mut tx);
    tx.sessions.put("s-1", session("s-1", "u-1", NOW));
    let mut app = client("app");
    app.scopes = names(&["openid", "profile"]);
    let grant = idp.new_grant(&mut tx, &app, Some(identity("u-1", "s-1", NOW)), names(&["openid"]), Some(s("nonce")));
    let family = grant.family_id.clone();
    tx.access.put(&riauth::outside::digest("access-token"), grant);
    let pending = riauth::outpost::Pending {
        client_id: s("app"),
        fingerprint: s("print"),
        browser_hash: s("hash"),
        verifier: s("verifier"),
        nonce: s("nonce"),
        return_to: s("https://app.test/a"),
        expires_at: NOW + 60,
        claimed: true,
    };
    let open = |tx: &mut Tx, access: &str| idp.outpost_open(tx, "app", &pending, access, "print", true, &proxy_rules());
    assert_eq!(message(&open(&mut tx, "other")), "unauthorized");
    let reply = open(&mut tx, "access-token").ok().unwrap();
    assert_eq!(reply.location.as_deref(), Some("https://app.test/a"));
    assert!(reply.cookies.iter().all(|c| !c.contains("access-token")));
    assert!(reply.cookies[0].contains("ri_proxy_"));
    assert_eq!(tx.proxy_sessions.row_at(0).expires_at, NOW + 600);
    assert!(tx.families.get(&family).unwrap().revoked);
}

#[test]
fn foreign_writes_are_refused() {
    let guard = |headers: Vec<Header>| message(&riauth::portal::pages::browser_write_guard(&headers, "https://id.test/"));
    let own = || vec![header("origin", "https://id.test"), header("x-riauth-portal", "1")];
    assert_eq!(guard(own()), "ok");
    let mut same_site = own();
    same_site.push(header("sec-fetch-site", "same-origin"));
    assert_eq!(guard(same_site), "ok");
    let mut cross = own();
    cross.push(header("sec-fetch-site", "cross-site"));
    assert_eq!(guard(cross), "forbidden");
    assert_eq!(guard(vec![header("origin", "https://evil.test"), header("x-riauth-portal", "1")]), "forbidden");
    assert_eq!(guard(vec![header("origin", "https://id.test")]), "forbidden");
    assert_eq!(riauth::portal::pages::escape("<a href=\"x\">'&"), "&lt;a href=&quot;x&quot;&gt;&#39;&amp;");
}

#[test]
fn a_portal_decision_is_delivered_once() {
    let idp = provider();
    let mut tx = store(NOW);
    let codes = vec![UserCode { text: s("ABCD-EFGH"), normalized: s("ABCDEFGH") }];
    let (started, cookie) = idp.portal_sign_in(&mut tx, "", &codes, &None).ok().unwrap();
    assert_eq!(started.expires_at, NOW + 600);
    let binding = Some(cookie.value.clone());
    assert!(matches!(idp.portal_poll(&mut tx, "", &started.id, &binding), Ok(Polled::Pending)));
    assert_eq!(message(&idp.portal_poll(&mut tx, "", &started.id, &None)), "unauthorized");
    let login = session("s-1", "u-1", NOW);
    tx.sessions.put("s-1", session("s-1", "u-1", NOW));
    assert!(idp.portal_decide(&mut tx, &login, "ABCDEFGH", true).is_ok());
    match idp.portal_poll(&mut tx, "", &started.id, &binding) {
        Ok(Polled::Approved(_, sid, uid)) => assert_eq!((sid, uid), (s("s-1"), s("u-1"))),
        _ => panic!("an approval was expected"),
    }
    assert_eq!(
        message(&idp.portal_poll(&mut tx, "", &started.id, &binding)),
        "missing: Sign-in expired; start again",
    );
}

#[test]
fn the_pool_stays_within_its_limit() {
    let mut pool = Connections::new();
    assert_eq!(pool.acquire(0, 2, 0).ok(), Some(Acquire::Open));
    assert_eq!(pool.acquire(0, 2, 0).ok(), Some(Acquire::Open));
    assert_eq!(pool.acquire(0, 2, 2_000_000_000).ok(), Some(Acquire::Wait(3_000_000_000)));
    assert_eq!(
        message(&pool.acquire(0, 2, 5_000_000_000)),
        "503 storage_busy: All storage connections are busy; retry shortly",
    );
    pool.give_back(false, 2);
    assert_eq!(pool.acquire(0, 2, 9_000_000_000).ok(), Some(Acquire::Reuse));
    pool.give_back(true, 2);
    assert_eq!(pool.acquire(0, 2, 0).ok(), Some(Acquire::Open));
    pool.failed(2);
    assert_eq!((pool.idle, pool.total), (0, 1));
    let config = |size: usize, local: bool| PostgresConfig {
        connection_file: s("file"),
        ca_file: None,
        local_unencrypted: local,
        pool_size: size,
    };
    assert!(config(riauth::postgres_store::pool_size(), false).validate().is_ok());
    assert!(config(0, false).validate().is_err());
}

#[test]
fn connection_texts_are_checked() {
    let config = |local: bool, size: usize| PostgresConfig {
        connection_file: s("file"),
        ca_file: None,
        local_unencrypted: local,
        pool_size: size,
    };
    let local = config(true, 8);
    assert!(local.check_connection(" host=127.0.0.1 user=riauth\n").is_ok());
    assert!(local.check_connection("host=::1 user=riauth").is_ok());
    assert!(local.check_connection("host=/var/run/postgresql user=riauth").is_ok());
    let remote = "bad: Unencrypted PostgreSQL requires literal loopback hosts or Unix sockets";
    assert_eq!(message(&local.check_connection("host=localhost user=riauth")), remote);
    assert_eq!(message(&local.check_connection("host=127.0.0.1 hostaddr=192.0.2.1 user=riauth")), remote);
    assert_eq!(message(&local.check_connection("host=192.0.2.1 user=riauth")), remote);
    assert_eq!(message(&local.check_connection("host")), "bad: Invalid PostgreSQL connection file");
    let tls = config(false, 8);
    assert!(tls.check_connection("host=db.test,db2.test user=riauth").is_ok());
    assert_eq!(
        message(&tls.check_connection("host=/var/run/postgresql user=riauth")),
        "bad: TLS PostgreSQL requires a certificate hostname",
    );
    assert_eq!(
        message(&tls.check_connection("user=riauth")),
        "bad: Configure one to eight explicit PostgreSQL hosts",
    );
    assert_eq!(
        message(&config(false, 0).check_connection("host=db.test")),
        "internal: PostgreSQL pool_size must be 1..64",
    );
}

#[test]
fn sockets_open_without_a_body() {
    let request = ProxyRequest {
        method: s("GET"),
        absolute: false,
        path: s("/"),
        path_query: s("/"),
        query: None,
        headers: vec![
            header("host", "app.test"),
            header("origin", "https://app.test"),
            header("connection", "Upgrade"),
            header("upgrade", "websocket"),
            header("sec-websocket-version", "13"),
            header("sec-websocket-key", "dGhlIHNhbXBsZSBub25jZQ=="),
            Header { name: s("x-name"), value: None, raw: vec![0xc3, 0xa4] },
        ],
    };
    let route = riauth::proxy_server::Route {
        external: s("https://app.test"),
        target: riauth::proxy_server::Target {
            client_id: s("app"),
            upstream: s("https://upstream.test"),
            ca_file: None,
            allow_plain_http: false,
        },
    };
    let send = |empty: bool| riauth::proxy_server::forward(&request, &route, &Vec::new(), "192.0.2.1", empty);
    assert_eq!(message(&send(false)), "bad: WebSocket handshake cannot carry a request body");
    let sent = send(true).ok().unwrap();
    assert!(sent.ws_key.is_some());
    let kept = sent.headers.iter().find(|h| h.name == "x-name").unwrap();
    assert_eq!((kept.value.is_none(), kept.raw.clone()), (true, vec![0xc3, 0xa4]));
}

#[test]
fn credentials_are_not_checked_for_nobody() {
    let idp = provider();
    let mut asked = 0;
    let refused = idp.portal_password(&None, true, |_: &Option<String>| {
        asked += 1;
        Ok(Vec::new())
    });
    assert!(refused.is_err());
    assert_eq!(asked, 0);
    let mut pinned = None;
    let own = session("s-1", "u-1", 1_800_000_000);
    let signed = idp.portal_password(&Some(own), true, |pin: &Option<String>| {
        pinned = pin.clone();
        Ok(vec![s("cookie")])
    });
    assert!(signed.is_ok());
    assert_eq!(pinned.as_deref(), Some("u-1"));
    let wrong = idp.portal_password(&None, false, |_: &Option<String>| Err(Error::Unauthorized));
    assert_eq!(message(&wrong), "unauthorized");
}

#[test]
fn a_failed_step_ends_its_session() {
    let response = riauth::radius::eap::write_packet(2, 7, Some(13), &vec![0, 1]);
    let request = Packet { identifier: 1, authenticator: vec![0; 16], attrs: vec![(79, response)] };
    let settle = |step: Result<Outcome, Error>| {
        let mut sessions: Table<Session> = Table::new();
        sessions.put("s-1", session("s-1", "u-1", NOW));
        let own = Some(identity("u-1", "s-1", NOW));
        let (outcome, kept) = riauth::radius::cache::settle_step(&mut sessions, &own, &request, step);
        (outcome, kept, sessions.get("s-1").unwrap().revoked)
    };
    let (outcome, kept, ended) = settle(Ok(Outcome::Challenge(Vec::new())));
    assert!(matches!(outcome, Ok(Outcome::Challenge(_))) && kept && !ended);
    let (outcome, kept, ended) = settle(Ok(Outcome::Reject(Vec::new())));
    assert!(matches!(outcome, Ok(Outcome::Reject(_))) && !kept && !ended);
    let (outcome, kept, ended) = settle(Err(Error::Forbidden));
    assert!(matches!(outcome, Ok(Outcome::Reject(attrs)) if attrs == vec![(79, vec![4, 7, 0, 4])]) && !kept && ended);
    let (outcome, kept, ended) = settle(Err(Error::internal("gone")));
    assert!(matches!(outcome, Err(Error::Internal(_))) && !kept && ended);
}

#[test]
fn connection_options_are_header_names() {
    let clean = |option: &str| {
        riauth::proxy_server::clean(&vec![header("connection", option), header("x-private", "1"), header("accept", "a")])
    };
    let kept = clean("X-Private, close").ok().unwrap();
    assert_eq!(kept.iter().map(|h| h.name.as_str()).collect::<Vec<_>>(), vec!["accept"]);
    for odd in ["a b", "a(b)", "\u{e4}", "a/b", "a,,b"] {
        assert_eq!(message(&clean(odd)), "bad: Invalid Connection header token");
    }
    assert!(clean("!#$%&'*+-.^_`|~09az").is_ok());
}
