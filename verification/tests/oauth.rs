//! Authorization, tokens and what becomes of them.
use riauth::engine::Config;
use riauth::engine::Core;
use riauth::engine::Principal;
use riauth::error::Error;
use riauth::exchange::ExchangeGrant;
use riauth::exchange::ExchangePolicy;
use riauth::headers::Header;
use riauth::jose::ClientAuthMethod;
use riauth::jose::PublicJwk;
use riauth::jose::PublicJwks;
use riauth::json::Json;
use riauth::keyring::KeyInput;
use riauth::keyring::Keys;
use riauth::keyring::SigningKey;
use riauth::model::AuthenticationTransaction;
use riauth::model::Client;
use riauth::model::Identity;
use riauth::model::ProviderSettings;
use riauth::model::Session;
use riauth::names::Names;
use riauth::oidc::Authorization;
use riauth::oidc::Proof;
use riauth::oidc::Standing;
use riauth::oidc::TokenRequest;
use riauth::oidc::authorize::GrantKind;
use riauth::oidc::authorize::Verdict;
use riauth::oidc::issue::AccessDraft;
use riauth::rules::Rules;
use riauth::store::Tx;
use riauth::table::Table;

fn s(t: &str) -> String {
    t.to_owned()
}

fn names(list: &[&str]) -> Names {
    let mut out = Names::new();
    for item in list {
        out.insert(item);
    }
    out
}

fn rules() -> Rules {
    Rules {
        bad_names: Names::new(),
        server_urls: Names::new(),
        acr_values: Names::new(),
        response_modes: Names::new(),
        refused: Names::new(),
    }
}

fn store(now: u64) -> Tx {
    let active = SigningKey { kid: s("k1"), algorithm: s("EdDSA") };
    Tx::new(now, "seed", Keys { active, retired: Vec::new() })
}

fn provider() -> Core {
    Core {
        config: Config {
            issuer: s("https://id.test"),
            access_token_ttl: 600,
            refresh_token_ttl: 86_400,
            session_ttl: 3600,
            password_history: 3,
            signers: Table::new(),
            mail: None,
            fresh_seconds: 900,
            terminal_warn_seconds: 300,
            pam_approvers: Table::new(),
            trusted_proxies: names(&["10.0.0.1"]),
            client_certificates: None,
            native_tls: true,
        },
    }
}

fn client(id: &str) -> Client {
    let mut settings = ProviderSettings::plain();
    settings.allowed_grants = names(&[
        "authorization_code",
        "refresh_token",
        "client_credentials",
        "urn:ietf:params:oauth:grant-type:device_code",
    ]);
    Client {
        id: s(id),
        name: s(id),
        secret_hash: None,
        redirect_uris: vec![s("https://app.test/callback")],
        scopes: names(&["openid", "email"]),
        allowed_groups: Names::new(),
        require_mfa: false,
        enabled: true,
        service: false,
        settings,
    }
}

fn identity(user_id: &str, session_id: &str, auth_time: u64) -> Identity {
    Identity {
        amr: vec![s("pwd")],
        source: None,
        user_id: s(user_id),
        epoch: 1,
        mfa: false,
        auth_time,
        session_id: s(session_id),
    }
}

fn session(id: &str, user_id: &str, auth_time: u64) -> Session {
    Session {
        id: s(id),
        token_hash: s("token-hash"),
        identity: identity(user_id, id, auth_time),
        expires_at: auth_time + 3600,
        revoked: false,
    }
}

fn token_request() -> TokenRequest {
    TokenRequest {
        grant_type: s(""),
        client_id: None,
        client_secret: None,
        code: None,
        redirect_uri: None,
        code_verifier: None,
        refresh_token: None,
        device_code: None,
        scope: None,
        token: None,
        token_type_hint: None,
        client_assertion: None,
        client_assertion_type: None,
        assertion: None,
        subject_token: None,
        subject_token_type: None,
        actor_token: None,
        actor_token_type: None,
        requested_token_type: None,
        audience: None,
        resource: None,
        client_auth_method: None,
        dpop_proof: None,
        outpost_internal: false,
    }
}

fn unbound() -> Proof {
    Proof { confirmation_jkt: None, id_token_jkt: None }
}

fn standing() -> Standing {
    Standing { unauthorized: Names::new(), refused: Names::new(), trusts: Names::new() }
}

fn principal() -> Principal {
    Principal { id: s("admin"), agent: false }
}

fn signing_jwk() -> PublicJwk {
    PublicJwk {
        kty: s("OKP"),
        kid: s("k1"),
        alg: s("EdDSA"),
        usage: Some(s("sig")),
        key_ops: Vec::new(),
        n: None,
        e: None,
        crv: Some(s("Ed25519")),
        x: Some(s("11qYAYKxCrfVS_7TyWQHOg7hcvPapiMlrwIaaPcHURo")),
        y: None,
    }
}

fn jwks() -> PublicJwks {
    PublicJwks { keys: vec![signing_jwk()] }
}

fn message<T>(r: &Result<T, Error>) -> String {
    match r {
        Ok(_) => s("ok"),
        Err(Error::Bad(m)) => format!("bad: {m}"),
        Err(Error::Oauth(code, m)) => format!("{code}: {m}"),
        Err(Error::Unauthorized) => s("unauthorized"),
        Err(Error::Forbidden) => s("forbidden"),
        Err(Error::Missing(m)) => format!("missing: {m}"),
        Err(Error::Conflict(m)) => format!("conflict: {m}"),
        Err(Error::Internal(m)) => format!("internal: {m}"),
        Err(Error::Reply(status, code, m)) => format!("{status} {code}: {m}"),
        Err(Error::Name(m)) => format!("name: {m}"),
        Err(Error::Refused(m)) => format!("refused: {m}"),
    }
}

fn header(name: &str, value: &str) -> Header {
    Header { name: s(name), value: Some(s(value)), raw: Vec::new() }
}

fn text(t: &str) -> Json {
    Json::Text(s(t))
}

const NOW: u64 = 1_800_000_000;
const VERIFIER: &str = "abcdefghijklmnopqrstuvwxyz0123456789-._~ABCDEFG";

fn authorization() -> Authorization {
    Authorization {
        resource: None,
        dpop_jkt: None,
        claims: None,
        acr_values: None,
        request_uri: None,
        request_object_hash: None,
        response_type: s("code"),
        client_id: s("app"),
        redirect_uri: s("https://app.test/callback"),
        scope: s("openid email"),
        state: Some(s("state")),
        nonce: Some(s("nonce")),
        code_challenge: riauth::outside::digest(VERIFIER),
        code_challenge_method: s("S256"),
        prompt: None,
        max_age: None,
        response_mode: None,
        decision: Some(s("approve")),
        transaction_id: None,
        request_binding: None,
    }
}

fn verdict() -> Verdict {
    Verdict {
        scopes: Some(names(&["openid", "email"])),
        step_up: false,
        claims: Some(Json::Null),
        session_state: s("state-of-session"),
    }
}

fn value<'a>(pairs: &'a [(String, String)], name: &str) -> Option<&'a str> {
    pairs.iter().find(|p| p.0 == name).map(|p| p.1.as_str())
}

fn code_request(code: &str) -> TokenRequest {
    let mut request = token_request();
    request.grant_type = s("authorization_code");
    request.client_id = Some(s("app"));
    request.code = Some(s(code));
    request.redirect_uri = Some(s("https://app.test/callback"));
    request.code_verifier = Some(s(VERIFIER));
    request
}

fn authorized(tx: &mut Tx) -> String {
    tx.clients.put("app", client("app"));
    let login = session("s-1", "u-1", NOW);
    let pairs = provider()
        .authorize_session_proof(tx, &login, &authorization(), false, None, &rules(), &verdict())
        .ok()
        .unwrap();
    s(value(&pairs, "code").unwrap())
}

#[test]
fn a_code_is_redeemed_once_and_its_replay_ends_the_family() {
    let idp = provider();
    let mut tx = store(NOW);
    let code = authorized(&mut tx);
    let request = code_request(&code);
    let grant = idp.exchange_code(&mut tx, &request, true, Some(&unbound()), &None).ok().unwrap();
    assert_eq!(grant.client_id, "app");
    assert_eq!(grant.expires_at, NOW + 600);
    assert!(grant.scopes.same_names(&names(&["email", "openid"])));
    assert_eq!(grant.nonce.as_deref(), Some("nonce"));
    assert!(idp.validate_grant(&tx, "key", &grant, &standing()).is_ok());
    let replay = idp.exchange_code(&mut tx, &request, true, Some(&unbound()), &None);
    assert_eq!(message(&replay).split(':').next(), Some("invalid_grant"));
    assert!(tx.families.get(&grant.family_id).unwrap().revoked);
    assert_eq!(tx.audit.last().unwrap().action, "authorization_code.replay");
    assert_eq!(message(&idp.validate_grant(&tx, "key", &grant, &standing())), "unauthorized");
}

#[test]
fn a_code_needs_its_verifier_its_client_and_its_address() {
    let idp = provider();
    let mut tx = store(NOW);
    let code = authorized(&mut tx);
    let mut wrong = code_request(&code);
    wrong.code_verifier = Some("x".repeat(43));
    assert!(idp.exchange_code(&mut tx, &wrong, true, Some(&unbound()), &None).is_err());
    let mut wrong = code_request(&code);
    wrong.redirect_uri = Some(s("https://app.test/other"));
    assert!(idp.exchange_code(&mut tx, &wrong, true, Some(&unbound()), &None).is_err());
    let mut wrong = code_request(&code);
    wrong.code_verifier = None;
    assert_eq!(
        message(&idp.exchange_code(&mut tx, &wrong, true, Some(&unbound()), &None)),
        "bad: Missing code_verifier",
    );
    tx.clients.put("other", client("other"));
    let mut wrong = code_request(&code);
    wrong.client_id = Some(s("other"));
    assert!(idp.exchange_code(&mut tx, &wrong, true, Some(&unbound()), &None).is_err());
    let right = code_request(&code);
    assert!(idp.exchange_code(&mut tx, &right, false, Some(&unbound()), &None).is_err());
    assert_eq!(
        message(&idp.exchange_code(&mut tx, &right, true, None, &None)),
        "refused: dpop",
    );
    tx.now = NOW + 120;
    assert!(idp.exchange_code(&mut tx, &right, true, Some(&unbound()), &None).is_err());
    tx.now = NOW + 119;
    assert!(idp.exchange_code(&mut tx, &right, true, Some(&unbound()), &None).is_ok());
}

#[test]
fn authorization_requests_stay_within_the_registration() {
    let mut tx = store(NOW);
    tx.clients.put("app", client("app"));
    let granted = Some(names(&["openid"]));
    let check = |tx: &Tx, request: &Authorization| {
        message(&riauth::oidc::authorize::validate_authorization(tx, request, &rules(), &granted))
    };
    assert_eq!(check(&tx, &authorization()), "ok");
    let mut request = authorization();
    request.redirect_uri = s("https://app.test/other");
    assert_eq!(check(&tx, &request), "bad: Unregistered redirect URI");
    let mut request = authorization();
    request.response_type = s("token");
    assert_eq!(check(&tx, &request), "unsupported_response_type: Only authorization code is supported");
    let mut request = authorization();
    request.code_challenge_method = s("plain");
    assert_eq!(check(&tx, &request), "bad: A valid S256 PKCE challenge is required for every client");
    let mut request = authorization();
    request.state = Some("x".repeat(513));
    assert_eq!(check(&tx, &request), "bad: state and nonce must be at most 512 bytes");
    let mut request = authorization();
    request.prompt = Some(s("none login"));
    assert_eq!(check(&tx, &request), "bad: Invalid prompt combination");
    let mut request = authorization();
    request.response_mode = Some(s("fragment"));
    assert_eq!(check(&tx, &request), "bad: Unsupported response mode");
    let mut request = authorization();
    request.scope = s("openid payroll");
    assert!(check(&tx, &request).starts_with("invalid_scope"));
    assert_eq!(
        message(&riauth::oidc::authorize::validate_authorization(&tx, &authorization(), &rules(), &None)),
        "refused: assurance",
    );
    let mut service = client("app");
    service.service = true;
    tx.clients.put("app", service);
    assert_eq!(
        check(&tx, &authorization()),
        "unauthorized_client: Service client cannot authenticate users",
    );
}

#[test]
fn consent_is_explicit_and_logins_are_fresh() {
    let idp = provider();
    let mut tx = store(NOW);
    tx.clients.put("app", client("app"));
    let login = session("s-1", "u-1", NOW - 100);
    let ask = |tx: &mut Tx, request: &Authorization, key: Option<&str>| {
        idp.authorize_session_proof(tx, &login, request, false, key, &rules(), &verdict())
    };
    let mut request = authorization();
    request.decision = None;
    assert_eq!(message(&ask(&mut tx, &request, None)), "bad: An explicit approve or deny decision is required");
    request.decision = Some(s("deny"));
    let denied = ask(&mut tx, &request, None).ok().unwrap();
    assert_eq!(value(&denied, "error"), Some("access_denied"));
    assert_eq!(value(&denied, "code"), None);
    assert_eq!(tx.audit.last().unwrap().action, "authorization.denied");
    let mut request = authorization();
    request.max_age = Some(60);
    assert_eq!(
        message(&ask(&mut tx, &request, None)),
        "login_required: Complete request-bound reauthentication",
    );
    tx.authentication.put(
        "proof",
        AuthenticationTransaction {
            request_hash: s("another"),
            user_id: None,
            authenticated_session: Some(s("s-1")),
            expires_at: NOW + 60,
            source_stage: None,
        },
    );
    assert_eq!(
        message(&ask(&mut tx, &request, Some("proof"))),
        "bad: Authentication transaction belongs to another request",
    );
    tx.authentication.put(
        "proof",
        AuthenticationTransaction {
            request_hash: request.request_hash(),
            user_id: None,
            authenticated_session: Some(s("s-1")),
            expires_at: NOW + 60,
            source_stage: None,
        },
    );
    assert!(ask(&mut tx, &request, Some("proof")).is_ok());
    assert!(!tx.authentication.has("proof"));
    let mut request = authorization();
    request.prompt = Some(s("none"));
    assert_eq!(
        message(&ask(&mut tx, &request, None)),
        "consent_required: Explicit terminal consent is required",
    );
    let mut ended = session("s-1", "u-1", NOW);
    ended.revoked = true;
    assert_eq!(
        message(&idp.authorize_session_proof(&mut tx, &ended, &authorization(), false, None, &rules(), &verdict())),
        "unauthorized",
    );
}

#[test]
fn devices_wait_slow_down_and_are_redeemed_once() {
    let idp = provider();
    let mut tx = store(NOW);
    tx.clients.put("app", client("app"));
    let mut request = token_request();
    request.client_id = Some(s("app"));
    request.scope = Some(s("openid"));
    let started = idp.device_start(&mut tx, &request, "user-code").ok().unwrap();
    assert_eq!(started.interval, 5);
    let mut poll = token_request();
    poll.client_id = Some(s("app"));
    poll.device_code = Some(started.device_code.clone());
    let ask = |tx: &mut Tx| idp.exchange_device(tx, &poll, true, Some(&unbound()));
    assert_eq!(message(&ask(&mut tx)), "authorization_pending: Waiting for terminal approval");
    tx.now = NOW + 3;
    assert_eq!(message(&ask(&mut tx)), "slow_down: Increase your polling interval by five seconds");
    let login = session("s-1", "u-1", NOW);
    assert!(idp.device_decide(&mut tx, &login, "user-code", true, true).is_ok());
    tx.now = NOW + 13;
    let grant = ask(&mut tx).ok().unwrap();
    assert_eq!(grant.identity.as_ref().unwrap().user_id, "u-1");
    tx.now = NOW + 30;
    assert!(message(&ask(&mut tx)).starts_with("invalid_grant"));
    assert!(riauth::oidc::device::lookup_device(&tx, "user-code").is_err());
}

#[test]
fn a_refresh_token_is_used_once() {
    let idp = provider();
    let mut tx = store(NOW);
    let mut app = client("app");
    app.scopes = names(&["openid", "email", "offline_access"]);
    let grant = idp.new_grant(
        &mut tx,
        &app,
        Some(identity("u-1", "s-1", NOW)),
        names(&["openid", "email", "offline_access"]),
        None,
    );
    assert_eq!(grant.expires_at, NOW + 86_400);
    let family = grant.family_id.clone();
    tx.clients.put("app", app);
    tx.refresh.put(&riauth::outside::digest("token"), grant);
    let mut request = token_request();
    request.client_id = Some(s("app"));
    request.refresh_token = Some(s("token"));
    request.scope = Some(s("openid"));
    let next = idp.refresh(&mut tx, &request, Some(&unbound()), &standing()).ok().unwrap();
    assert!(next.scopes.same_names(&names(&["openid"])));
    assert_eq!(next.family_id, family);
    assert!(message(&idp.refresh(&mut tx, &request, Some(&unbound()), &standing())).starts_with("invalid_grant"));
    assert!(tx.families.get(&family).unwrap().revoked);
    assert_eq!(tx.audit.last().unwrap().action, "refresh.replay");
}

#[test]
fn a_refresh_adds_no_scope() {
    let idp = provider();
    let mut tx = store(NOW);
    let grant = idp.new_grant(
        &mut tx,
        &client("app"),
        Some(identity("u-1", "s-1", NOW)),
        names(&["openid"]),
        None,
    );
    tx.clients.put("app", client("app"));
    tx.refresh.put(&riauth::outside::digest("token"), grant);
    let mut request = token_request();
    request.client_id = Some(s("app"));
    request.refresh_token = Some(s("token"));
    request.scope = Some(s("openid email"));
    assert_eq!(
        message(&idp.refresh(&mut tx, &request, Some(&unbound()), &standing())),
        "invalid_scope: Refresh scope cannot be expanded",
    );
}

#[test]
fn a_revoked_token_does_not_stand() {
    let idp = provider();
    let mut tx = store(NOW);
    let app = client("app");
    let grant = idp.new_grant(&mut tx, &app, Some(identity("u-1", "s-1", NOW)), names(&["openid"]), None);
    tx.clients.put("app", app);
    let family = grant.family_id.clone();
    tx.access.put(&riauth::outside::digest("token"), grant);
    let mut request = token_request();
    request.client_id = Some(s("app"));
    assert_eq!(message(&idp.revoke(&mut tx, &request)), "bad: Missing token");
    request.token = Some(s("unknown"));
    assert!(idp.revoke(&mut tx, &request).is_ok());
    assert!(!tx.families.get(&family).unwrap().revoked);
    request.token = Some(s("token"));
    assert!(idp.revoke(&mut tx, &request).is_ok());
    assert!(tx.families.get(&family).unwrap().revoked);
    request.client_id = Some(s("nobody"));
    assert!(message(&idp.revoke(&mut tx, &request)).contains("invalid_client"));
}

#[test]
fn confidential_clients_present_their_secret() {
    let mut tx = store(NOW);
    let mut app = client("app");
    app.secret_hash = Some(riauth::outside::digest("secret"));
    tx.clients.put("app", app);
    let mut request = token_request();
    request.client_id = Some(s("app"));
    assert!(riauth::oidc::authenticate_client(&mut tx, &request, false).is_err());
    request.client_secret = Some(s("wrong"));
    assert!(riauth::oidc::authenticate_client(&mut tx, &request, false).is_err());
    request.client_secret = Some(s("secret"));
    assert!(riauth::oidc::authenticate_client(&mut tx, &request, true).is_ok());
}

#[test]
fn header_credentials_stand_alone() {
    let basic = header("authorization", "Basic YXBwOnNlY3JldA==");
    let read = riauth::oidc::endpoints::client_credentials_from_headers;
    let request = read(&vec![basic], token_request()).ok().unwrap();
    assert_eq!(request.client_id.as_deref(), Some("app"));
    assert_eq!(request.client_secret.as_deref(), Some("secret"));
    assert_eq!(request.client_auth_method, Some(ClientAuthMethod::ClientSecretBasic));
    let mut both = token_request();
    both.client_secret = Some(s("secret"));
    let basic = header("authorization", "Basic YXBwOnNlY3JldA==");
    assert!(read(&vec![basic], both).is_err());
    let twice = vec![header("dpop", "a"), header("dpop", "b")];
    assert_eq!(message(&read(&twice, token_request())), "bad: Duplicate authentication header");
    let broken = vec![header("authorization", "Basic ***")];
    assert!(read(&broken, token_request()).is_err());
}

#[test]
fn parameters_are_given_once() {
    let pairs = vec![(s("a"), s("1")), (s("b"), s(""))];
    let kept = riauth::oidc::endpoints::oauth_parameters(&pairs).ok().unwrap();
    assert_eq!(kept, vec![(s("a"), s("1"))]);
    let twice = vec![(s("a"), s("1")), (s("a"), s("2"))];
    assert!(riauth::oidc::endpoints::oauth_parameters(&twice).is_err());
}

#[test]
fn an_exchange_stays_within_both_policies() {
    let mut target = client("api");
    target.settings.exchange_from = names(&["gateway"]);
    let mut requester = client("gateway");
    requester.scopes = names(&["email"]);
    let policy = ExchangePolicy {
        subject_clients: names(&["app"]),
        target_clients: names(&["api"]),
        scopes: names(&["email"]),
        allow_impersonation: true,
        allow_delegation: false,
    };
    let mut tx = store(NOW);
    let subject = provider().new_grant(
        &mut tx,
        &client("app"),
        Some(identity("u-1", "s-1", NOW)),
        names(&["openid", "email"]),
        None,
    );
    let check = |scopes: &Names, delegation: bool| {
        message(&riauth::exchange::check_policy(&requester, &target, &policy, &subject, scopes, delegation))
    };
    assert_eq!(check(&names(&["email"]), false), "ok");
    assert_eq!(
        check(&names(&["email"]), true),
        "unauthorized_client: Exchange is outside the bilateral trust policy",
    );
    assert_eq!(
        check(&names(&["openid"]), false),
        "invalid_scope: Exchange cannot expand scopes or create login/refresh credentials",
    );
}

#[test]
fn a_grant_is_bound_to_a_registered_resource() {
    let mut app = client("app");
    app.settings.resources.put("https://api.test/v1", names(&["email"]));
    let mut tx = store(NOW);
    let mut grant = provider().new_grant(&mut tx, &app, None, names(&["email"]), None);
    assert!(riauth::resource::bind(&app, &mut grant, Some("https://api.test/v1"), Some("https://api.test/v1")).is_ok());
    assert_eq!(riauth::resource::audience(&grant), "https://api.test/v1");
    assert!(riauth::resource::validate(&app, Some("https://api.test/v1"), &names(&["openid"])).is_err());
    assert!(riauth::resource::validate(&app, Some("https://other.test"), &names(&["email"])).is_err());
    assert!(riauth::resource::validate(&app, None, &names(&["email"])).is_ok());
    assert!(riauth::resource::validate_uri("https://api.test/v1").is_ok());
    assert!(riauth::resource::validate_uri("not a uri").is_err());
    assert!(riauth::resource::validate_uri("https://api.test/v1#part").is_err());
}

#[test]
fn redirects_are_registered_exactly() {
    let app = client("app");
    assert!(riauth::provider::redirect_matches(&app, "https://app.test/callback"));
    assert!(!riauth::provider::redirect_matches(&app, "https://app.test/callback?x=1"));
    let mut closed = client("app");
    closed.settings.allowed_grants = names(&["client_credentials"]);
    assert_eq!(
        message(&riauth::provider::grant_allowed(&closed, "authorization_code")),
        "unauthorized_client: Grant type is disabled for this client",
    );
    closed.settings.allowed_grants = Names::new();
    assert!(riauth::provider::grant_allowed(&closed, "authorization_code").is_ok());
}

#[test]
fn clients_have_an_issuer_of_their_own() {
    let mut app = client("app");
    assert_eq!(riauth::issuer::for_client("https://id.test", &app), "https://id.test");
    app.settings.issuer = Some(s("https://id.test/app"));
    assert_eq!(riauth::issuer::for_client("https://id.test", &app), "https://id.test/app");
    let mut tx = store(NOW);
    tx.clients.put("app", app);
    let find = |host: &str, path: &str| provider().discover_provider_path(&tx, host, path);
    assert_eq!(find("id.test", "/app/.well-known/openid-configuration").ok().unwrap(), "app");
    assert_eq!(find("id.test", "/.well-known/oauth-authorization-server/app").ok().unwrap(), "app");
    assert!(find("other.test", "/app/.well-known/openid-configuration").is_err());
    assert!(find("id.test", "/.well-known/openid-configuration/app").is_err());
}

#[test]
fn a_replaced_key_verifies_for_the_sessions_it_signed() {
    let idp = provider();
    let mut tx = store(NOW);
    let input = KeyInput { remote_signer: None, id: s("signing"), algorithm: s("EdDSA"), private_key_pem: None, kid: None };
    let fresh = SigningKey { kid: s("k2"), algorithm: s("EdDSA") };
    assert!(idp.configure_key(&mut tx, &principal(), &input, fresh).is_ok());
    assert_eq!(tx.keys.active.kid, "k2");
    assert_eq!(riauth::keyring::public_keys(&tx), vec![s("k2"), s("k1")]);
    assert_eq!(idp.jwks(&tx), vec![s("k2"), s("k1")]);
    let until = tx.keys.retired[0].expires_at;
    assert!(until >= NOW + 3600);
    assert_eq!(riauth::keyring::live_keys(&tx.keys.retired, until).len(), 0);
    assert_eq!(riauth::keyring::live_keys(&tx.keys.retired, until - 1).len(), 1);
    let again = SigningKey { kid: s("k1"), algorithm: s("EdDSA") };
    assert!(idp.configure_key(&mut tx, &principal(), &input, again).is_err());
}

#[test]
fn a_request_is_told_apart_from_others() {
    let request = authorization();
    let mut decided = authorization();
    decided.decision = Some(s("deny"));
    decided.transaction_id = Some(s("t-1"));
    assert_eq!(request.request_hash(), decided.request_hash());
    let mut other = authorization();
    other.max_age = Some(60);
    assert_ne!(request.request_hash(), other.request_hash());
    let mut other = authorization();
    other.redirect_uri = s("https://app.test/other");
    assert_ne!(request.request_hash(), other.request_hash());
}

#[test]
fn tokens_are_issued_once_they_are_signed() {
    let idp = provider();
    let mut tx = store(NOW);
    let app = client("app");
    let grant = idp.new_grant(
        &mut tx,
        &app,
        Some(identity("u-1", "s-1", NOW)),
        names(&["openid", "offline_access"]),
        None,
    );
    tx.clients.put("app", app);
    let mut mapped: Table<Json> = Table::new();
    mapped.put("sub", text("subject-1"));
    let mapped = Some(mapped);
    let drawn = tx.drawn;
    let refused = idp.issue(&mut tx, &grant, true, &mapped, "acr", |_: &AccessDraft| {
        Err(Error::internal("signer is gone"))
    });
    assert_eq!(message(&refused), "internal: signer is gone");
    assert_eq!((tx.drawn, tx.access.len()), (drawn, 0));
    let issued = idp
        .issue(&mut tx, &grant, true, &mapped, "acr", |draft: &AccessDraft| {
            assert_eq!(draft.subject, "subject-1");
            Ok(s("signed"))
        })
        .ok()
        .unwrap();
    assert_eq!(issued.access_token, "signed");
    assert!(issued.id_claims.is_some());
    assert!(issued.refresh_token.is_some());
    let kept = tx.access.get(&riauth::outside::digest("signed")).unwrap();
    assert!(kept.expires_at <= grant.expires_at);
    assert_eq!(kept.family_id, grant.family_id);
    assert_eq!(
        message(&idp.issue(&mut tx, &grant, true, &None, "acr", |_: &AccessDraft| Ok(s("x")))),
        "refused: identity",
    );
    let mut exchanged = riauth::table::Row::dup(&grant);
    exchanged.exchange = Some(ExchangeGrant {
        requester_id: s("gateway"),
        subject_hash: s("subject"),
        actor_hash: None,
        act: None,
        service_subject: None,
    });
    let shown = idp.answer_exchange(&mut tx, &exchanged, &issued);
    let noted = tx.audit.last().unwrap();
    assert_eq!((noted.actor.as_str(), noted.action.as_str(), noted.target.as_str()), ("gateway", "token.exchanged", "app"));
    assert_eq!(shown.issued_token_type, "urn:ietf:params:oauth:token-type:access_token");
    assert_eq!((shown.access_token, shown.scope), (s("signed"), issued.scope));
}

#[test]
fn an_authorization_is_described_before_the_login() {
    let idp = provider();
    let mut tx = store(NOW);
    tx.clients.put("app", client("app"));
    let bound = Some(names(&["openid", "email"]));
    let mut quiet = authorization();
    quiet.prompt = Some(s("none"));
    assert_eq!(
        message(&idp.authorization_details(&mut tx, &quiet, &rules(), &bound, false)),
        "login_required: Terminal authentication and consent are required",
    );
    let shown = idp.authorization_details(&mut tx, &authorization(), &rules(), &bound, false);
    assert_eq!(message(&shown), "ok");
    assert_eq!(tx.authentication.len(), 1);
    let hash = authorization().request_hash();
    assert_eq!(tx.authentication.row_at(0).request_hash, hash);
}

#[test]
fn logins_are_refreshed_and_services_are_not() {
    for kind in [GrantKind::AuthorizationCode, GrantKind::Device, GrantKind::Refresh] {
        assert!(riauth::oidc::authorize::refreshes(&kind));
    }
    for kind in [GrantKind::ClientCredentials, GrantKind::Exchange, GrantKind::Machine] {
        assert!(!riauth::oidc::authorize::refreshes(&kind));
    }
}
