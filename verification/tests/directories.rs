//! Clients, the directory and the lists that operators read.
use riauth::engine::Config;
use riauth::engine::Core;
use riauth::error::Error;
use riauth::jose::ClientAuthMethod;
use riauth::jose::PublicJwk;
use riauth::jose::PublicJwks;
use riauth::json::Json;
use riauth::keyring::Keys;
use riauth::keyring::SigningKey;
use riauth::ldap_server::connection::Auth;
use riauth::ldap_server::connection::BindName;
use riauth::ldap_server::connection::BindOutcome;
use riauth::ldap_server::filter::Filter;
use riauth::ldap_server::search::Scope;
use riauth::ldap_server::search::SearchRequest;
use riauth::ldap_server::search::Viewer;
use riauth::model::Client;
use riauth::model::Group;
use riauth::model::Identity;
use riauth::model::ProviderSettings;
use riauth::model::SamlSettings;
use riauth::model::Session;
use riauth::model::User;
use riauth::names::Names;
use riauth::oidc::Standing;
use riauth::oidc::TokenRequest;
use riauth::operations::AlertPrep;
use riauth::operations::AlertSelection;
use riauth::operations::NamedResource;
use riauth::portal::apps::AppVerdict;
use riauth::rules::Rules;
use riauth::store::Tx;
use riauth::table::Table;

fn s(t: &str) -> String {
    t.to_owned()
}

fn names(list: &[&str]) -> Names {
    let mut out = Names::new();
    for item in list {
        out.insert(item);
    }
    out
}

fn rules() -> Rules {
    Rules {
        bad_names: Names::new(),
        server_urls: Names::new(),
        acr_values: Names::new(),
        response_modes: Names::new(),
        refused: Names::new(),
    }
}

fn store(now: u64) -> Tx {
    let active = SigningKey { kid: s("k1"), algorithm: s("EdDSA") };
    Tx::new(now, "seed", Keys { active, retired: Vec::new() })
}

fn provider() -> Core {
    Core {
        config: Config {
            issuer: s("https://id.test"),
            access_token_ttl: 600,
            refresh_token_ttl: 86_400,
            session_ttl: 3600,
            password_history: 3,
            signers: Table::new(),
            mail: None,
            fresh_seconds: 900,
            terminal_warn_seconds: 300,
            pam_approvers: Table::new(),
            trusted_proxies: names(&["10.0.0.1"]),
            client_certificates: None,
            native_tls: true,
        },
    }
}

fn user(id: &str, username: &str) -> User {
    User {
        has_passkeys: false,
        totp_settings: Json::Null,
        pairwise_seed: s("seed"),
        id: s(id),
        username: s(username),
        email: None,
        display_name: s(username),
        password_hash: s("hash"),
        enabled: true,
        admin: false,
        epoch: 1,
        totp_secret: None,
        totp_pending: None,
        totp_last_step: None,
        created_at: 0,
        attributes: Table::new(),
        email_verified: false,
        subjects: Table::new(),
        recovery_codes: Names::new(),
    }
}

fn add_user(tx: &mut Tx, user: User) {
    let name = user.username.clone();
    let id = user.id.clone();
    tx.usernames.put(&name, id.clone());
    tx.users.put(&id, user);
}

fn client(id: &str) -> Client {
    let mut settings = ProviderSettings::plain();
    settings.allowed_grants = names(&[
        "authorization_code",
        "refresh_token",
        "client_credentials",
        "urn:ietf:params:oauth:grant-type:device_code",
    ]);
    Client {
        id: s(id),
        name: s(id),
        secret_hash: None,
        redirect_uris: vec![s("https://app.test/callback")],
        scopes: names(&["openid", "email"]),
        allowed_groups: Names::new(),
        require_mfa: false,
        enabled: true,
        service: false,
        settings,
    }
}

fn identity(user_id: &str, session_id: &str, auth_time: u64) -> Identity {
    Identity {
        amr: vec![s("pwd")],
        source: None,
        user_id: s(user_id),
        epoch: 1,
        mfa: false,
        auth_time,
        session_id: s(session_id),
    }
}

fn session(id: &str, user_id: &str, auth_time: u64) -> Session {
    Session {
        id: s(id),
        token_hash: s("token-hash"),
        identity: identity(user_id, id, auth_time),
        expires_at: auth_time + 3600,
        revoked: false,
    }
}

fn token_request() -> TokenRequest {
    TokenRequest {
        grant_type: s(""),
        client_id: None,
        client_secret: None,
        code: None,
        redirect_uri: None,
        code_verifier: None,
        refresh_token: None,
        device_code: None,
        scope: None,
        token: None,
        token_type_hint: None,
        client_assertion: None,
        client_assertion_type: None,
        assertion: None,
        subject_token: None,
        subject_token_type: None,
        actor_token: None,
        actor_token_type: None,
        requested_token_type: None,
        audience: None,
        resource: None,
        client_auth_method: None,
        dpop_proof: None,
        outpost_internal: false,
    }
}

fn standing() -> Standing {
    Standing { unauthorized: Names::new(), refused: Names::new(), trusts: Names::new() }
}

fn signing_jwk() -> PublicJwk {
    PublicJwk {
        kty: s("OKP"),
        kid: s("k1"),
        alg: s("EdDSA"),
        usage: Some(s("sig")),
        key_ops: Vec::new(),
        n: None,
        e: None,
        crv: Some(s("Ed25519")),
        x: Some(s("11qYAYKxCrfVS_7TyWQHOg7hcvPapiMlrwIaaPcHURo")),
        y: None,
    }
}

fn jwks() -> PublicJwks {
    PublicJwks { keys: vec![signing_jwk()] }
}

fn message<T>(r: &Result<T, Error>) -> String {
    match r {
        Ok(_) => s("ok"),
        Err(Error::Bad(m)) => format!("bad: {m}"),
        Err(Error::Oauth(code, m)) => format!("{code}: {m}"),
        Err(Error::Unauthorized) => s("unauthorized"),
        Err(Error::Forbidden) => s("forbidden"),
        Err(Error::Missing(m)) => format!("missing: {m}"),
        Err(Error::Conflict(m)) => format!("conflict: {m}"),
        Err(Error::Internal(m)) => format!("internal: {m}"),
        Err(Error::Reply(status, code, m)) => format!("{status} {code}: {m}"),
        Err(Error::Name(m)) => format!("name: {m}"),
        Err(Error::Refused(m)) => format!("refused: {m}"),
    }
}

const NOW: u64 = 1_800_000_000;

fn listed_rules() -> Rules {
    let mut r = rules();
    r.server_urls = names(&["https://id.test", "https://app.test"]);
    r
}

#[test]
fn settings_are_checked_one_by_one() {
    let check = |c: &Client| message(&riauth::provider::validate_settings(c, &listed_rules()));
    assert_eq!(check(&client("app")).as_str(), "bad: Unsupported grant for this client type");
    let fine = || {
        let mut c = client("app");
        c.settings.allowed_grants = names(&["authorization_code", "refresh_token"]);
        c
    };
    assert_eq!(check(&fine()), "ok");
    let mut c = fine();
    c.settings.code_ttl = Some(601);
    assert_eq!(check(&c), "bad: Provider token lifetime is outside its supported range");
    let mut c = fine();
    c.settings.code_ttl = Some(600);
    assert_eq!(check(&c), "ok");
    let mut c = fine();
    c.settings.origins = names(&["https://app.test/"]);
    assert_eq!(check(&c), "bad: CORS origins must be exact HTTPS origins (HTTP loopback allowed)");
    let mut c = fine();
    c.settings.post_logout_redirect_uris = vec![s("https://app.test/out?sid=1")];
    assert_eq!(check(&c), "bad: Logout URLs must be exact HTTPS URLs (HTTP loopback allowed)");
    let mut c = fine();
    c.settings.backchannel_logout_uri = Some(s("not a url"));
    assert_eq!(check(&c), "bad: Invalid logout URL");
    let mut c = fine();
    c.service = true;
    assert_eq!(check(&c), "bad: Service clients require confidential authentication");
    let mut c = fine();
    c.settings.require_signed_request = true;
    assert_eq!(check(&c), "bad: Signed requests require pinned client public keys");
    let mut c = fine();
    c.settings.token_endpoint_auth_method = Some(ClientAuthMethod::PrivateKeyJwt);
    assert_eq!(check(&c), "bad: private_key_jwt requires pinned public keys");
    c.settings.jwks = Some(jwks());
    assert_eq!(check(&c), "ok");
    c.secret_hash = Some(s("hash"));
    assert_eq!(check(&c), "bad: private_key_jwt clients cannot retain a shared secret");
    let mut c = fine();
    c.settings.default_acr_values = vec![s("unknown")];
    assert_eq!(check(&c), "bad: Unsupported default assurance value");
    let mut c = fine();
    c.settings.pairwise_sector = Some(s("App.Test"));
    assert_eq!(check(&c), "bad: Pairwise sector must be a canonical host for an interactive client");
    let mut c = fine();
    c.settings.resources.put("https://api.test/v1", names(&["payroll"]));
    assert_eq!(check(&c), "bad: Resource scopes must be a nonempty subset of client scopes");
}

fn directory(tx: &mut Tx) {
    let mut ldap = client("ldap");
    ldap.scopes = names(&["openid", "profile", "email", "groups"]);
    ldap.settings.ldap = Some(riauth::ldap_server::Settings {
        base_dn: s("dc=example,dc=test"),
        search_groups: names(&["staff"]),
    });
    tx.clients.put("ldap", ldap);
    tx.groups.put("staff", Group { name: s("staff"), members: names(&["u-1", "u-2"]) });
    add_user(tx, user("u-1", "alice"));
    add_user(tx, user("u-2", "bob"));
    add_user(tx, user("u-3", "carol"));
}

fn search(tx: &Tx, viewer: &Viewer, base: &str, filter: Filter) -> Result<Vec<String>, Error> {
    let query = SearchRequest {
        base: s(base),
        scope: Scope::Subtree,
        never_alias: true,
        sizelimit: 0,
        timelimit: 0,
        typesonly: false,
        filter,
        attrs: Vec::new(),
    };
    let found = riauth::ldap_server::search::search_entries(tx, "ldap", viewer, &Table::new(), &query, true, &rules());
    found.map(|(rows, _)| rows.into_iter().map(|e| e.dn).collect())
}

#[test]
fn users_see_only_themselves() {
    let mut tx = store(NOW);
    directory(&mut tx);
    let settings = riauth::ldap_server::Settings { base_dn: s("dc=example,dc=test"), search_groups: names(&["staff"]) };
    let uid = || Filter::Present(s("uid"));
    let all = search(&tx, &Viewer::Agent, "dc=example,dc=test", uid()).ok().unwrap();
    assert!(all.contains(&settings.user_dn("alice")));
    assert!(all.contains(&settings.user_dn("bob")));
    assert!(!all.contains(&settings.user_dn("carol")));
    let own = search(&tx, &Viewer::User(s("u-1")), "dc=example,dc=test", uid()).ok().unwrap();
    assert_eq!(own, vec![settings.user_dn("alice")]);
    assert_eq!(message(&search(&tx, &Viewer::Anonymous, "dc=example,dc=test", uid())), "unauthorized");
    assert_eq!(message(&search(&tx, &Viewer::Refused, "dc=example,dc=test", uid())), "refused: ldap");
    assert!(search(&tx, &Viewer::Agent, "dc=other", uid()).is_err());
}

#[test]
fn binds_name_one_user_or_the_agent() {
    let mut tx = store(NOW);
    directory(&mut tx);
    let settings = riauth::ldap_server::Settings { base_dn: s("dc=example,dc=test"), search_groups: names(&["staff"]) };
    let bind = |dn: &str, password: &str, agent: bool| {
        riauth::ldap_server::connection::bind_name(&tx, "ldap", dn, password, agent, &rules())
    };
    assert!(matches!(bind(&settings.user_dn("ALICE"), "x", false), Ok(BindName::User(name, false)) if name == "alice"));
    assert!(matches!(bind(&settings.agent_dn(), "ri_agent_1", true), Ok(BindName::Agent)));
    assert_eq!(message(&bind(&settings.agent_dn(), "secret", true)), "forbidden");
    assert_eq!(message(&bind(&settings.agent_dn(), "ri_agent_1", false)), "refused: ldap.search");
    assert_eq!(message(&bind("uid=nobody", "x", true)), "unauthorized");
    let finish = riauth::ldap_server::connection::finish_bind;
    assert!(matches!(finish(Ok(s("token")), &None), (BindOutcome::Accepted(Auth::User(t)), None) if t == "token"));
    assert!(matches!(finish(Ok(s("token")), &Some(Error::Forbidden)), (BindOutcome::Refused, Some(t)) if t == "token"));
    assert!(matches!(finish(Err(Error::internal("x")), &None), (BindOutcome::Unavailable, None)));
    assert!(matches!(finish(Err(Error::Unauthorized), &None), (BindOutcome::Refused, None)));
}

#[test]
fn operators_list_what_they_may_see() {
    let mut tx = store(NOW);
    let ring = |kid: &str| Keys { active: SigningKey { kid: s(kid), algorithm: s("EdDSA") }, retired: Vec::new() };
    tx.key_domains.put("b", ring("kb"));
    tx.key_domains.put("a", ring("ka"));
    let shown = provider().key_domains(&tx, &names(&["a", "b", "signing"]));
    assert_eq!(shown.iter().map(|d| d.active.as_str()).collect::<Vec<_>>(), vec!["k1", "ka", "kb"]);
    assert_eq!(provider().key_domains(&tx, &names(&["b"])).len(), 1);
    assert_eq!(provider().logout_deliveries(&tx).len(), 0);
    assert_eq!(provider().registration_templates(&tx, &names(&["x"])).len(), 0);
    let mut targets: Table<riauth::provisioning::Target> = Table::new();
    targets.put(
        "crm",
        riauth::provisioning::Target {
            url: s("https://scim.test/v2"),
            token_file: Some(s("token")),
            oauth: None,
            ca_file: None,
            groups: names(&["staff"]),
            export_groups: false,
        },
    );
    assert_eq!(provider().provisioning_targets(&targets, &names(&["crm"]))[0].url, "https://scim.test/v2");
    assert!(provider().provisioning_targets(&targets, &Names::new()).is_empty());
}

#[test]
fn records_are_found_by_kind_and_name() {
    let mut tx = store(NOW);
    directory(&mut tx);
    let mut sources: Table<Json> = Table::new();
    sources.put("corp", Json::Null);
    let get = |kind: &str, name: &str| provider().get_resource(&tx, &sources, kind, name);
    assert!(matches!(get("user", "alice"), Ok(NamedResource::User(u)) if u.id == "u-1"));
    assert!(matches!(get("client", "ldap"), Ok(NamedResource::Client(_))));
    assert!(matches!(get("group", "staff"), Ok(NamedResource::Group(_))));
    assert!(matches!(get("source", "corp"), Ok(NamedResource::Source(_))));
    assert_eq!(message(&get("user", "nobody")), "missing: User not found");
    assert_eq!(message(&get("client", "nobody")), "missing: Client not found");
    assert_eq!(message(&get("group", "nobody")), "missing: Group not found");
    assert_eq!(message(&get("source", "nobody")), "missing: Source not found");
    assert_eq!(message(&get("door", "front")), "bad: Unknown resource kind");
}

#[test]
fn alerts_tell_what_was_selected() {
    let all = Some(AlertSelection { storage_not_ready: true, cleanup_errors: true, signing_failures: false });
    let prepare = |ready: bool, cleanup: u64, guarded: bool, file: Option<&str>| {
        riauth::operations::prepare_alert(&all, true, ready, cleanup, 9, guarded, &file.map(s))
    };
    assert!(matches!(prepare(true, 0, false, None), AlertPrep::Quiet));
    match prepare(false, 3, true, Some("token \n")) {
        AlertPrep::Post(signals, bearer) => {
            assert_eq!(signals.len(), 2);
            assert_eq!(signals[0].name, "storage_not_ready");
            assert_eq!(signals[1].count, Some(3));
            assert_eq!(bearer.as_deref(), Some("token"));
        }
        _ => panic!("an alert was expected"),
    }
    assert!(matches!(prepare(true, 1, true, None), AlertPrep::Failed(why, _) if why == "credential_unreadable"));
    assert!(matches!(prepare(true, 1, true, Some("a b")), AlertPrep::Failed(..)));
    let broken = riauth::operations::prepare_alert(&all, false, true, 1, 0, false, &None);
    assert!(matches!(broken, AlertPrep::Failed(why, signals) if why == "invalid_webhook" && signals.is_empty()));
    assert!(matches!(riauth::operations::prepare_alert(&None, true, false, 1, 1, false, &None), AlertPrep::Quiet));
    assert_eq!(riauth::operations::alert_answered(Some(204)), None);
    assert_eq!(riauth::operations::alert_answered(Some(500)).as_deref(), Some("rejected"));
    assert_eq!(riauth::operations::alert_answered(None).as_deref(), Some("request_failed"));
}

#[test]
fn borrowed_sessions_change_no_passkeys() {
    let idp = provider();
    let mut tx = store(NOW);
    add_user(&mut tx, user("u-1", "alice"));
    let alice = user("u-1", "alice");
    let own = Some(session("s-1", "u-1", NOW));
    tx.browser_sessions.put(&riauth::outside::digest("cookie"), s("s-1"));
    let shared = idp.portal_passkey_register_start(&mut tx, &alice, &own, true, "laptop", &None, &rules());
    assert!(message(&shared).starts_with("403 reauthentication_required"));
    let started = idp.portal_passkey_register_start(&mut tx, &alice, &own, false, "laptop", &None, &rules()).ok().unwrap();
    let sso = Some(s("cookie"));
    let answer = idp.portal_passkey_register_finish(&mut tx, &sso, &alice, &own, false, &started.ceremony, "{}");
    assert_eq!(message(&answer), "bad: Passkey registration verification failed");
    assert_eq!(tx.browser_sessions.len(), 1);
    assert_eq!(
        message(&idp.portal_passkey_register_start(&mut tx, &alice, &None, false, "laptop", &None, &rules())),
        "unauthorized",
    );
    assert_eq!(message(&idp.portal_passkey_finish(&mut tx, &None, "unknown", "{}")), "unauthorized");
}

#[test]
fn tokens_are_described_to_their_managers() {
    let idp = provider();
    let mut tx = store(NOW);
    let mut app = client("app");
    app.secret_hash = Some(riauth::outside::digest("secret"));
    let grant = idp.new_grant(&mut tx, &app, Some(identity("u-1", "s-1", NOW)), names(&["openid"]), None);
    tx.clients.put("app", app);
    tx.access.put(&riauth::outside::digest("token"), grant);
    let mut request = token_request();
    request.client_id = Some(s("app"));
    request.client_secret = Some(s("secret"));
    request.token = Some(s("token"));
    let shown = idp.introspect(&mut tx, &request, &standing(), "subject").ok().unwrap().unwrap();
    assert_eq!(shown.client_id, "app");
    assert_eq!(shown.scope, "openid");
    assert_eq!(shown.exp, NOW + 600);
    assert_eq!(shown.iss, "https://id.test");
    request.token = Some(s("other"));
    assert!(idp.introspect(&mut tx, &request, &standing(), "subject").ok().unwrap().is_none());
    let info = idp.userinfo_with_proof(&tx, "token", &None, &standing()).ok().unwrap();
    assert!(!info.signed);
    assert_eq!(message(&idp.userinfo_with_proof(&tx, "other", &None, &standing())), "unauthorized");
    tx.now = NOW + 600;
    assert_eq!(message(&idp.userinfo_with_proof(&tx, "token", &None, &standing())), "unauthorized");
}

#[test]
fn applications_launch_where_they_say() {
    let mut app = client("app");
    assert_eq!(riauth::portal::apps::portal_target(&app, "https://id.test/"), None);
    app.settings.saml = Some(SamlSettings { idp_initiated: true, scopes: names(&["openid"]) });
    assert_eq!(
        riauth::portal::apps::portal_target(&app, "https://id.test/").as_deref(),
        Some("https://id.test/saml/app/init"),
    );
    app.settings.proxy =
        Some(riauth::outpost::Settings { domain: None, external_origin: s("https://app.test"), session_ttl: 600 });
    assert_eq!(riauth::portal::apps::portal_target(&app, "https://id.test/").as_deref(), Some("https://app.test/"));
    let idp = provider();
    let tx = store(NOW);
    let verdict = AppVerdict {
        authorization: None,
        saml: None,
        saml_scopes: Names::new(),
        claims: None,
        assurance: None,
    };
    assert_eq!(message(&idp.portal_launch(&tx, false, "app", &verdict)), "unauthorized");
    assert_eq!(message(&idp.portal_launch(&tx, true, "app", &verdict)), "forbidden");
}

#[test]
fn the_provider_describes_itself() {
    let document = provider().discovery(&vec![s("urn:acr")], &vec![s("query")]);
    assert_eq!(document.get_text("issuer").map(|t| t.as_str()), Some("https://id.test"));
    assert_eq!(
        document.get_text("authorization_endpoint").map(|t| t.as_str()),
        Some("https://id.test/oauth/authorize"),
    );
    let tx = store(NOW);
    assert!(provider().provider_discovery(&tx, "unknown", &Vec::new(), &Vec::new()).is_err());
}

#[test]
fn large_results_are_refused() {
    let mut tx = store(NOW);
    directory(&mut tx);
    let mut alice = user("u-1", "alice");
    alice.display_name = "x".repeat(200_000);
    add_user(&mut tx, alice);
    assert_eq!(
        message(&search(&tx, &Viewer::Agent, "dc=example,dc=test", Filter::Present(s("uid")))),
        "bad: LDAP result exceeds provider limit",
    );
    assert!(search(&tx, &Viewer::User(s("u-2")), "dc=example,dc=test", Filter::Present(s("uid"))).is_ok());
}
