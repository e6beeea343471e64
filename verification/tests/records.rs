//! Records: provisioning, reports, backups, imports, registrations and the small tools under them.
use riauth::engine::Config;
use riauth::engine::Core;
use riauth::engine::Principal;
use riauth::error::Error;
use riauth::jose::PublicJwk;
use riauth::json::Json;
use riauth::json::Member;
use riauth::keyring::Keys;
use riauth::keyring::SigningKey;
use riauth::kms::RemoteKey;
use riauth::kms::VaultSigner;
use riauth::logout::RpSession;
use riauth::migration::Import;
use riauth::migration::Reviews;
use riauth::model::Client;
use riauth::model::Group;
use riauth::model::Identity;
use riauth::model::ProviderSettings;
use riauth::model::User;
use riauth::names::Names;
use riauth::offboarding::worker::AgentStanding;
use riauth::operations::ArchiveCheck;
use riauth::operations::ArchiveManifest;
use riauth::operations::BackupProgress;
use riauth::operations::InventoryKind;
use riauth::operations::InventoryRow;
use riauth::operations::RecordsChunk;
use riauth::operations::WholeBackup;
use riauth::provisioning::Oauth;
use riauth::provisioning::OauthGrant;
use riauth::provisioning::delivery::Next;
use riauth::provisioning::delivery::ScimReply;
use riauth::provisioning::delivery::ScimRequest;
use riauth::provisioning::token::Authorized;
use riauth::provisioning::token::IssuedToken;
use riauth::provisioning::token::TokenCache;
use riauth::provisioning::token::TokenResponse;
use riauth::registration::RegistrationRequest;
use riauth::registration::RegistrationReview;
use riauth::registration::RegistrationTemplate;
use riauth::reports::AuditEvent;
use riauth::reports::AuditFilter;
use riauth::reports::AuditReviewQuery;
use riauth::rules::Rules;
use riauth::store::Tx;
use riauth::table::Table;
use riauth::timeline::Moment;

fn s(t: &str) -> String {
    t.to_owned()
}

fn names(list: &[&str]) -> Names {
    let mut out = Names::new();
    for item in list {
        out.insert(item);
    }
    out
}

fn rules() -> Rules {
    Rules {
        bad_names: Names::new(),
        server_urls: Names::new(),
        acr_values: Names::new(),
        response_modes: Names::new(),
        refused: Names::new(),
    }
}

fn store(now: u64) -> Tx {
    let active = SigningKey { kid: s("k1"), algorithm: s("EdDSA") };
    Tx::new(now, "seed", Keys { active, retired: Vec::new() })
}

fn provider() -> Core {
    Core {
        config: Config {
            issuer: s("https://id.test"),
            access_token_ttl: 600,
            refresh_token_ttl: 86_400,
            session_ttl: 3600,
            password_history: 3,
            signers: Table::new(),
            mail: None,
            fresh_seconds: 900,
            terminal_warn_seconds: 300,
            pam_approvers: Table::new(),
            trusted_proxies: names(&["10.0.0.1"]),
            client_certificates: None,
            native_tls: true,
        },
    }
}

fn user(id: &str, username: &str) -> User {
    User {
        has_passkeys: false,
        totp_settings: Json::Null,
        pairwise_seed: s("seed"),
        id: s(id),
        username: s(username),
        email: None,
        display_name: s(username),
        password_hash: s("hash"),
        enabled: true,
        admin: false,
        epoch: 1,
        totp_secret: None,
        totp_pending: None,
        totp_last_step: None,
        created_at: 0,
        attributes: Table::new(),
        email_verified: false,
        subjects: Table::new(),
        recovery_codes: Names::new(),
    }
}

fn add_user(tx: &mut Tx, user: User) {
    let name = user.username.clone();
    let id = user.id.clone();
    tx.usernames.put(&name, id.clone());
    tx.users.put(&id, user);
}

fn client(id: &str) -> Client {
    let mut settings = ProviderSettings::plain();
    settings.allowed_grants = names(&[
        "authorization_code",
        "refresh_token",
        "client_credentials",
        "urn:ietf:params:oauth:grant-type:device_code",
    ]);
    Client {
        id: s(id),
        name: s(id),
        secret_hash: None,
        redirect_uris: vec![s("https://app.test/callback")],
        scopes: names(&["openid", "email"]),
        allowed_groups: Names::new(),
        require_mfa: false,
        enabled: true,
        service: false,
        settings,
    }
}

fn identity(user_id: &str, session_id: &str, auth_time: u64) -> Identity {
    Identity {
        amr: vec![s("pwd")],
        source: None,
        user_id: s(user_id),
        epoch: 1,
        mfa: false,
        auth_time,
        session_id: s(session_id),
    }
}

fn principal() -> Principal {
    Principal { id: s("admin"), agent: false }
}

fn signing_jwk() -> PublicJwk {
    PublicJwk {
        kty: s("OKP"),
        kid: s("k1"),
        alg: s("EdDSA"),
        usage: Some(s("sig")),
        key_ops: Vec::new(),
        n: None,
        e: None,
        crv: Some(s("Ed25519")),
        x: Some(s("11qYAYKxCrfVS_7TyWQHOg7hcvPapiMlrwIaaPcHURo")),
        y: None,
    }
}

fn message<T>(r: &Result<T, Error>) -> String {
    match r {
        Ok(_) => s("ok"),
        Err(Error::Bad(m)) => format!("bad: {m}"),
        Err(Error::Oauth(code, m)) => format!("{code}: {m}"),
        Err(Error::Unauthorized) => s("unauthorized"),
        Err(Error::Forbidden) => s("forbidden"),
        Err(Error::Missing(m)) => format!("missing: {m}"),
        Err(Error::Conflict(m)) => format!("conflict: {m}"),
        Err(Error::Internal(m)) => format!("internal: {m}"),
        Err(Error::Reply(status, code, m)) => format!("{status} {code}: {m}"),
        Err(Error::Name(m)) => format!("name: {m}"),
        Err(Error::Refused(m)) => format!("refused: {m}"),
    }
}

fn object(members: &[(&str, Json)]) -> Json {
    let mut out = Json::object(Vec::new());
    for (key, value) in members {
        out.set(key, copy_json(value));
    }
    out
}

fn copy_json(v: &Json) -> Json {
    match v {
        Json::Null => Json::Null,
        Json::Bool(b) => Json::Bool(*b),
        Json::Unsigned(n) => Json::Unsigned(*n),
        Json::Negative(n) => Json::Negative(*n),
        Json::Fraction(t) => Json::Fraction(t.clone()),
        Json::Text(t) => Json::Text(t.clone()),
        Json::Array(list) => Json::Array(list.iter().map(copy_json).collect()),
        Json::Object(members) => Json::Object(
            members.iter().map(|m| Member { key: m.key.clone(), value: copy_json(&m.value) }).collect(),
        ),
    }
}

fn text(t: &str) -> Json {
    Json::Text(s(t))
}

const NOW: u64 = 1_800_000_000;

#[test]
fn scim_omitted_empty_multi_value_fields_are_equal() {
    let managed_equal = riauth::provisioning::managed_equal;
    assert!(managed_equal(
        &object(&[("id", text("group-1")), ("members", Json::Array(Vec::new()))]),
        &object(&[("id", text("group-1"))]),
    ));
    assert!(managed_equal(
        &object(&[("id", text("user-1")), ("emails", Json::Array(Vec::new()))]),
        &object(&[("id", text("user-1")), ("emails", Json::Null)]),
    ));
    assert!(!managed_equal(
        &object(&[
            ("id", text("group-1")),
            ("members", Json::Array(vec![object(&[("value", text("user-1"))])])),
        ]),
        &object(&[("id", text("group-1"))]),
    ));
}

fn target() -> riauth::provisioning::Target {
    riauth::provisioning::Target {
        url: s("https://scim.test/v2"),
        token_file: Some(s("token")),
        oauth: None,
        ca_file: None,
        groups: names(&["staff"]),
        export_groups: true,
    }
}

fn staffed() -> Tx {
    let mut tx = store(NOW);
    add_user(&mut tx, user("u-1", "alice"));
    let mut root = user("u-2", "root");
    root.admin = true;
    add_user(&mut tx, root);
    tx.groups.put("staff", Group { name: s("staff"), members: names(&["u-1", "u-2"]) });
    tx
}

fn url_rules() -> Rules {
    let mut r = rules();
    r.server_urls = names(&["https://scim.test/v2", "https://id.test"]);
    r
}

#[test]
fn administrators_are_not_exported() {
    let tx = staffed();
    let drafted = riauth::provisioning::planning::draft_resources(&tx, "https://id.test", "crm", &target()).ok().unwrap();
    let users: Vec<&str> = drafted.iter().filter(|r| r.kind == "Users").map(|r| r.local_id.as_str()).collect();
    assert_eq!(users, vec!["u-1"]);
    assert_eq!(drafted.iter().filter(|r| r.kind == "Groups").count(), 1);
    assert_eq!(drafted[0].body.get_text("userName").map(|t| t.as_str()), Some("alice"));
}

#[test]
fn a_plan_is_applied_once() {
    let idp = provider();
    let mut tx = staffed();
    let plan = idp.provisioning_plan(&mut tx, &principal(), "crm", &target(), "print", &url_rules());
    assert_eq!(message(&plan), "ok");
    let plan = plan.ok().unwrap();
    assert_eq!(plan.expires_at, NOW + 3600);
    let sizes: Table<u64> = Table::new();
    assert!(idp.provisioning_keep(&mut tx, &plan, 1000, &sizes).is_ok());
    let targets = names(&["crm"]);
    let apply = |tx: &mut Tx, print: &str| {
        idp.provisioning_apply(tx, &principal(), &plan.id, &targets, &Some(s(print)), &Table::new(), 1000)
    };
    assert_eq!(message(&apply(&mut tx, "other")), "conflict: Provisioning plan expired or configuration changed");
    let first = apply(&mut tx, "print").ok().unwrap();
    assert_eq!(first.total, plan.resources.len());
    assert!(!first.completed);
    let second = apply(&mut tx, "print").ok().unwrap();
    assert_eq!(second.id, first.id);
    assert_eq!(tx.provisioning_jobs.len(), 1);
    let mut fingerprints: Table<String> = Table::new();
    fingerprints.put("crm", s("print"));
    let permitted = names(&[plan.id.as_str()]);
    let taken = idp.claim_provisioning(&mut tx, &vec![plan.id.clone()], &permitted, &fingerprints).unwrap();
    assert_eq!(taken.cursor, 0);
    assert!(idp.claim_provisioning(&mut tx, &vec![plan.id.clone()], &permitted, &fingerprints).is_none());
    let mut late = taken;
    late.lease = Some(s("another"));
    idp.finish_provisioning(&mut tx, &late, None, true);
    assert_eq!(tx.provisioning_jobs.get(&plan.id).unwrap().cursor, 0);
    assert_eq!(idp.provisioning_jobs(&tx, &targets).len(), 1);
    assert_eq!(idp.provisioning_jobs(&tx, &Names::new()).len(), 0);
}

#[test]
fn a_resource_is_found_or_created() {
    let mut tx = staffed();
    let idp = provider();
    let plan = idp.provisioning_plan(&mut tx, &principal(), "crm", &target(), "print", &url_rules()).ok().unwrap();
    let job = riauth::provisioning::Job {
        total: plan.resources.len(),
        plan,
        cursor: 0,
        completed: false,
        stale: false,
        next_attempt: NOW,
        attempts: 1,
        lease: Some(s("lease")),
        error: None,
    };
    let mut step = riauth::provisioning::delivery::begin_step(&tx, &job, &job.plan.resources[0], "https://scim.test/v2").ok().unwrap();
    match step.first_request() {
        ScimRequest::Find { url, filter } => {
            assert_eq!(url, "https://scim.test/v2/Users");
            assert!(filter.starts_with("externalId eq \""));
        }
        _ => panic!("a lookup was expected"),
    }
    let none = ScimReply {
        status: 200,
        body: Some(object(&[("totalResults", Json::Unsigned(0)), ("Resources", Json::Array(Vec::new()))])),
        etag: None,
    };
    match step.advance(&none) {
        Ok(Next::Send(ScimRequest::Post { url, body, .. })) => {
            assert_eq!(url, "https://scim.test/v2/Users");
            let mut made = copy_json(&body);
            made.set("id", text("remote-1"));
            let created = ScimReply { status: 201, body: Some(made), etag: None };
            match step.advance(&created) {
                Ok(Next::Done(Some(link))) => assert_eq!(link.remote_id, "remote-1"),
                other => panic!("a link was expected: {}", message(&other)),
            }
        }
        other => panic!("a creation was expected: {}", message(&other)),
    }
    let refused = ScimReply { status: 500, body: None, etag: None };
    let mut other = riauth::provisioning::delivery::begin_step(&tx, &job, &job.plan.resources[0], "https://scim.test/v2").ok().unwrap();
    assert!(other.advance(&refused).is_err());
}

fn oauth() -> Oauth {
    Oauth {
        token_url: s("https://login.test/token"),
        grant: OauthGrant::ClientCredentials,
        client_id: s("scim"),
        client_secret_file: Some(s("secret")),
        refresh_token_file: None,
        scope: Some(s("scim")),
        audience: None,
        ca_file: None,
    }
}

#[test]
fn tokens_are_kept_while_they_last() {
    let response = |kind: &str| TokenResponse {
        access_token: Some(s("abc")),
        token_type: Some(s(kind)),
        expires_in: Some(Json::Unsigned(600)),
        scope: None,
        audience: None,
        aud: None,
    };
    let issued = riauth::provisioning::token::accept_token(&oauth(), &response("Bearer"), Some(600), NOW);
    assert_eq!(message(&issued), "ok");
    let issued = issued.ok().unwrap();
    assert_eq!(issued.token, "abc");
    assert!(issued.expires_at <= NOW + 600);
    assert_eq!(
        message(&riauth::provisioning::token::accept_token(&oauth(), &response("mac"), Some(600), NOW)),
        "502 provisioning_remote_error: SCIM OAuth token endpoint returned a non-bearer token",
    );
    let mut cache = TokenCache::new();
    let key = riauth::provisioning::token::cache_key("crm", "print");
    let generation = cache.store_bearer("crm", &key, "secret", &issued);
    assert_eq!(cache.cached_bearer(&key, "secret", NOW).unwrap().token, "abc");
    assert!(cache.cached_bearer(&key, "other", NOW).is_none());
    assert!(cache.cached_bearer(&key, "secret", NOW + 600).is_none());
    cache.invalidate_generation(&key, generation);
    assert!(cache.cached_bearer(&key, "secret", NOW).is_none());
    assert!(riauth::provisioning::token::scope_covers(&text("a scim b"), "scim"));
    assert!(!riauth::provisioning::token::scope_covers(&text("a"), "scim"));
    assert!(riauth::provisioning::token::audience_covers(&Json::Array(vec![text("x"), text("y")]), "y"));
}

#[test]
fn report_cells_are_no_formulas() {
    let cell = |t: &str| riauth::reports::csv_cell(t);
    assert_eq!(cell("plain"), "plain");
    assert_eq!(cell("=1+1"), "'=1+1");
    assert_eq!(cell("a,b"), "\"a,b\"");
    assert_eq!(cell("say \"hi\""), "\"say \"\"hi\"\"\"");
    assert_eq!(cell("@a,b"), "\"'@a,b\"");
    let document = riauth::reports::csv_document(&vec![s("a"), s("b")], &vec![vec![s("1"), s("x,y")]]);
    assert!(document.starts_with("a,b"));
    assert!(document.contains("1,\"x,y\""));
}

#[test]
fn report_cursors_continue() {
    let filter = object(&[("action", text("login"))]);
    let cursor = riauth::reports::seal_cursor("admin", &filter, Some(4), "row-9", NOW);
    let open = |actor: &str, revision: u64, now: u64| {
        riauth::reports::open_cursor(&cursor, actor, &filter, Some(revision), now)
    };
    assert_eq!(open("admin", 4, NOW).ok().unwrap(), "row-9");
    assert_eq!(message(&open("other", 4, NOW)), "bad: Report cursor belongs to another query or actor");
    assert_eq!(
        message(&open("admin", 5, NOW)),
        "conflict: Report changed or cursor expired; restart enumeration",
    );
    assert!(open("admin", 4, NOW + 100_000).is_err());
}

#[test]
fn audit_events_are_filtered_and_paged() {
    let query = AuditReviewQuery {
        action: Some(s("login.*")),
        actor: None,
        target: None,
        run_id: None,
        from: Some(10),
        to: None,
        limit: None,
        cursor: None,
    };
    let filter = AuditFilter::parse(&query).ok().unwrap();
    let mut events: Table<AuditEvent> = Table::new();
    for (i, action) in ["login.failed", "logout", "login.ok", "login.failed"].iter().enumerate() {
        let id = format!("{i}");
        events.put(
            &id,
            AuditEvent {
                id: id.clone(),
                at: 10 + i as u64,
                actor: s("a"),
                action: s(action),
                target: s("t"),
                run_id: None,
                request_id: None,
            },
        );
    }
    assert_eq!(filter.value().get_text("action").map(|t| t.as_str()), Some("login.*"));
    assert_eq!(filter.value().get("from").and_then(|n| n.as_number()), Some(10));
    let (page, next) = provider().audit_page(&events, &filter, &None, 2);
    assert_eq!(page.iter().map(|e| e.id.clone()).collect::<Vec<_>>(), vec![s("3"), s("2")]);
    assert!(next.is_some());
    let review = provider().audit_review(&events, &query, &None).ok().unwrap();
    assert_eq!((review.events.len(), review.limit, review.next_after), (3, 100, None));
    let (rest, last) = provider().audit_page(&events, &filter, &next, 2);
    assert_eq!(rest.len(), 1);
    assert_eq!(rest[0].id, "0");
    assert!(last.is_none());
    assert!(riauth::reports::action_matches("login.failed", "login.*"));
    assert!(!riauth::reports::action_matches("logout", "login.*"));
    assert_eq!(riauth::reports::bound_limit(None, 50, 100), 50);
    assert_eq!(riauth::reports::bound_limit(Some(1000), 50, 100), 100);
}

#[test]
fn archives_cannot_be_rearranged() {
    assert_eq!(riauth::operations::split_record_key("users/u/1").ok().unwrap(), (s("users"), s("u/1")));
    assert_eq!(message(&riauth::operations::split_record_key("users")), "bad: Invalid backup record key");
    let mut progress = BackupProgress::start();
    assert!(progress.seal_page("users/a", 2, "sealed-0").is_ok());
    assert_eq!(message(&progress.seal_page("users/a", 1, "sealed-1")), "internal: Backup page did not advance");
    assert!(progress.seal_page("users/b", 1, "sealed-1").is_ok());
    assert_eq!(progress.bytes, 536);
    assert_eq!(progress.records, 3);
    let manifest = ArchiveManifest {
        kind: s("manifest"),
        api_version: s("riauth.backup/v2"),
        created_at: NOW,
        issuer: s("https://id.test"),
        record_count: 3,
        digests: vec![riauth::outside::digest("sealed-0"), riauth::outside::digest("sealed-1")],
    };
    let page = |index: u64| {
        Ok(RecordsChunk { kind: s("records"), index, names: vec![s("users/a")], values: vec![Json::Null] })
    };
    let mut check = ArchiveCheck::start();
    assert_eq!(message(&check.take_page(&manifest, "sealed-1", &page(0))), "bad: Backup payload is invalid");
    assert!(check.take_page(&manifest, "sealed-0", &page(0)).is_ok());
    assert_eq!(message(&check.finish(&manifest, 5)), "bad: Backup payload is invalid");
    assert_eq!(message(&check.take_page(&manifest, "sealed-1", &page(0))), "bad: Backup payload is invalid");
    assert!(check.take_page(&manifest, "sealed-1", &page(1)).is_ok());
    assert!(check.take_page(&manifest, "sealed-1", &page(2)).is_err());
}

#[test]
fn backup_keys_have_32_bytes() {
    let key = "AAAAAAAAAAAAAAAAAAAAAAAAAAAAAAAAAAAAAAAAAAA";
    assert_eq!(riauth::operations::decode_key(&format!(" {key}\n")).ok().unwrap(), vec![0; 32]);
    assert_eq!(message(&riauth::operations::decode_key("AAAA")), "bad: Backup key must contain 32 bytes");
    assert_eq!(message(&riauth::operations::decode_key("*")), "bad: Invalid backup key encoding");
    assert_eq!(riauth::operations::migration_target(true, false).is_ok(), true);
    assert_eq!(riauth::operations::migration_target(false, false).is_ok(), false);
}

#[test]
fn the_doctor_counts() {
    let mut tx = staffed();
    tx.clients.put("app", client("app"));
    let health = provider().doctor(&tx);
    assert!(health.healthy);
    assert_eq!((health.users, health.enabled_administrators, health.clients), (2, 1, 1));
    assert_eq!(health.checked_at, NOW);
}

#[test]
fn groups_are_reached_through_their_parents() {
    let mut parents: Table<Names> = Table::new();
    parents.put("a", names(&["b"]));
    parents.put("b", names(&["c"]));
    parents.put("c", Names::new());
    let found = riauth::migration::groups::group_ancestors(&parents, "a").ok().unwrap();
    assert!(found.same_names(&names(&["b", "c"])));
    parents.put("d", names(&["b", "c"]));
    let twice = riauth::migration::groups::group_ancestors(&parents, "d").ok().unwrap();
    assert!(twice.same_names(&names(&["b", "c"])));
    parents.put("c", names(&["a"]));
    assert!(riauth::migration::groups::group_ancestors(&parents, "a").is_err());
}

#[test]
fn imports_state_their_format() {
    let input = Import {
        source_links: Vec::new(),
        totp: Table::new(),
        source_resolutions: Table::new(),
        api_version: s("other"),
        issuer: s("https://id.test"),
        users: Json::Array(Vec::new()),
        groups: Json::Array(Vec::new()),
        providers: Json::Array(Vec::new()),
        applications: Json::Array(Vec::new()),
        policy_bindings: Json::Array(Vec::new()),
        sources: Json::Array(Vec::new()),
        passwords: Table::new(),
        clients: Table::new(),
    };
    let reviews = Reviews {
        rules: url_rules(),
        clients: Table::new(),
        mappings: Table::new(),
        messages: Table::new(),
        sources: Names::new(),
    };
    assert_eq!(
        message(&riauth::migration::users::convert(&input, &reviews)),
        "bad: Unsupported Authentik import format",
    );
    let fine = Import { api_version: s("riauth.authentik-import/v1"), ..input };
    let made = riauth::migration::users::convert(&fine, &reviews).ok().unwrap();
    assert!(made.users.is_empty());
    assert!(made.blockers.is_empty());
    let ready = riauth::migration::users::report(&fine, made, None, "source");
    assert!(ready.ready_for_plan && ready.manifest.is_some());
    let made = riauth::migration::users::convert(&fine, &reviews).ok().unwrap();
    let blocked = riauth::migration::users::report(&fine, made, Some(s("a rule")), "source");
    assert!(!blocked.ready_for_plan && blocked.manifest.is_none());
    assert!(blocked.blockers.contains("a rule"));
}

#[test]
fn registrations_stay_within_their_template() {
    let idp = provider();
    let mut tx = store(NOW);
    let mut root = user("admin", "root");
    root.admin = true;
    add_user(&mut tx, root);
    let template = RegistrationTemplate {
        id: s("partners"),
        redirect_uris: vec![s("https://app.test/callback")],
        scopes: names(&["openid"]),
        grant_types: names(&["authorization_code"]),
        auth_methods: names(&["none"]),
        settings: ProviderSettings::plain(),
        allowed_groups: Names::new(),
        require_mfa: false,
        ttl: 3600,
        max_uses: 1,
    };
    let made = idp.registration_template(&mut tx, &principal(), &template, &None, &rules());
    assert_eq!(message(&made), "ok");
    let (_, token) = made.ok().unwrap();
    let request = |uri: &str| RegistrationRequest {
        redirect_uris: vec![s(uri)],
        client_name: None,
        scope: Some(s("openid")),
        grant_types: None,
        response_types: None,
        token_endpoint_auth_method: Some(s("none")),
        application_type: None,
        jwks: None,
        post_logout_redirect_uris: None,
    };
    let review = RegistrationReview { agent: None, id_ok: true, name_ok: true, client_ok: true };
    assert_eq!(
        message(&idp.dynamic_register(&mut tx, "wrong", &request("https://app.test/callback"), &review, &rules())),
        "unauthorized",
    );
    assert!(idp.dynamic_register(&mut tx, &token, &request("https://evil.test/"), &review, &rules()).is_err());
    let drafted = idp.draft_client(&mut tx, &token, &request("https://app.test/callback")).ok().unwrap();
    let registered = idp.dynamic_register(&mut tx, &token, &request("https://app.test/callback"), &review, &rules());
    assert_eq!(message(&registered), "ok");
    assert_eq!(drafted.id, registered.as_ref().ok().unwrap().client.id);
    let registered = registered.ok().unwrap();
    assert!(registered.secret.is_none());
    assert!(tx.clients.has(&registered.client.id));
    assert_eq!(
        message(&idp.dynamic_register(&mut tx, &token, &request("https://app.test/callback"), &review, &rules())),
        "unauthorized",
    );
}

#[test]
fn a_revoked_template_registers_nobody() {
    let idp = provider();
    let mut tx = store(NOW);
    let mut root = user("admin", "root");
    root.admin = true;
    add_user(&mut tx, root);
    let template = RegistrationTemplate {
        id: s("partners"),
        redirect_uris: vec![s("https://app.test/callback")],
        scopes: names(&["openid"]),
        grant_types: names(&["authorization_code"]),
        auth_methods: names(&["none"]),
        settings: ProviderSettings::plain(),
        allowed_groups: Names::new(),
        require_mfa: false,
        ttl: 3600,
        max_uses: 5,
    };
    let (_, token) = idp.registration_template(&mut tx, &principal(), &template, &None, &rules()).ok().unwrap();
    assert_eq!(message(&idp.revoke_registration(&mut tx, &principal(), "unknown")), "missing: Template not found");
    assert!(!idp.revoke_registration(&mut tx, &principal(), "partners").ok().unwrap().enabled);
    let request = RegistrationRequest {
        redirect_uris: vec![s("https://app.test/callback")],
        client_name: None,
        scope: Some(s("openid")),
        grant_types: None,
        response_types: None,
        token_endpoint_auth_method: Some(s("none")),
        application_type: None,
        jwks: None,
        post_logout_redirect_uris: None,
    };
    let review = RegistrationReview { agent: None, id_ok: true, name_ok: true, client_ok: true };
    assert_eq!(message(&idp.dynamic_register(&mut tx, &token, &request, &review, &rules())), "unauthorized");
    assert_eq!(idp.registration_templates(&tx, &names(&["partners"])).len(), 1);
}

#[test]
fn sessions_are_ended_at_their_applications_once() {
    let idp = provider();
    let mut tx = store(NOW);
    let mut app = client("app");
    app.settings.backchannel_logout_uri = Some(s("https://app.test/backchannel"));
    let grant = idp.new_grant(&mut tx, &app, Some(identity("u-1", "s-1", NOW)), names(&["openid"]), None);
    let sid = riauth::logout::record(&mut tx, &app, &identity("u-1", "s-1", NOW), "subject", &grant);
    tx.clients.put("app", app);
    riauth::logout::queue_session(&mut tx, "s-1");
    riauth::logout::queue_session(&mut tx, "s-1");
    assert!(tx.rp_sessions.get(&sid).unwrap().ended);
    assert_eq!(tx.logout_deliveries.len(), 1);
    let id = tx.logout_deliveries.key_at(0).clone();
    let due = idp.claim_logout_deliveries(&mut tx, &vec![id.clone()]).ok().unwrap();
    assert_eq!(due.len(), 1);
    assert_eq!(due[0].kid, "k1");
    let claims = &due[0].claims;
    assert_eq!(claims.get_text("iss").map(|t| t.as_str()), Some("https://id.test"));
    assert_eq!(claims.get("exp").and_then(|n| n.as_number()), Some(NOW + 120));
    let attempt = tx.logout_deliveries.get(&id).unwrap().attempts;
    idp.finish_logout_delivery(&mut tx, &id, attempt, Some(200));
    assert_eq!(tx.logout_deliveries.get(&id).unwrap().delivered_at, Some(NOW));
}

#[test]
fn identifiers_derive_from_the_seed() {
    assert_eq!(riauth::outside::digest("abc"), "ungWv48Bz-pBQUDeXa4iI7ADYaOWF3qctBD_YfIAFa0");
    let mut tx = store(NOW);
    let first = tx.id();
    assert_eq!(first, riauth::outside::digest("seed\u{0}0"));
    assert_eq!(tx.id(), riauth::outside::digest("seed\u{0}1"));
    assert_eq!(tx.random_token("p_"), format!("p_{}", riauth::outside::digest("seed\u{0}2")));
}

#[test]
fn tables_and_names_stay_in_order() {
    let mut table: Table<String> = Table::new();
    table.put("b", s("2"));
    table.put("a", s("1"));
    table.put("b", s("3"));
    assert_eq!(table.len(), 2);
    assert_eq!(table.keys().to_list(), vec![s("a"), s("b")]);
    assert_eq!(table.get("b").unwrap(), "3");
    table.delete("a");
    assert!(!table.has("a"));
    let mut set = names(&["b", "a", "b"]);
    assert_eq!(set.to_list(), vec![s("a"), s("b")]);
    assert!(!set.insert("a"));
    assert_eq!(set.join(","), "a,b");
    assert!(names(&["a"]).is_subset(&set));
    assert!(riauth::names::common(&set, &names(&["b", "c"])).same_names(&names(&["b"])));
}

#[test]
fn texts_are_cut_and_joined() {
    assert_eq!(riauth::text::trim("  a b \n"), "a b");
    assert_eq!(riauth::text::split("a,b,,c", ','), vec![s("a"), s("b"), s(""), s("c")]);
    assert_eq!(riauth::text::split_words(" a  b "), vec![s("a"), s("b")]);
    assert_eq!(riauth::text::split_once("a=b=c", '='), Some((s("a"), s("b=c"))));
    assert_eq!(riauth::text::lowercase("AbC"), "abc");
    assert_eq!(riauth::text::decimal_text(1050), "1050");
    assert_eq!(riauth::text::parse_number("42"), Some(42));
    assert_eq!(riauth::text::parse_number("4x"), None);
    assert_eq!(riauth::text::parse_number("18446744073709551616"), None);
    assert_eq!(riauth::text::byte_len("é"), 2);
    assert!(riauth::text::before("a", "b"));
    assert!(!riauth::text::before("b", "b"));
    assert_eq!(riauth::engine::retry_delay(0), 1);
    assert_eq!(riauth::engine::retry_delay(5), 32);
    assert_eq!(riauth::engine::retry_delay(12), 3600);
    assert_eq!(riauth::engine::earlier(3, 2), 2);
}

#[test]
fn errors_have_their_status() {
    assert_eq!(Error::bad("x").status(), 400);
    assert_eq!(Error::Unauthorized.status(), 401);
    assert_eq!(Error::Forbidden.status(), 403);
    assert_eq!(Error::missing("x").status(), 404);
    assert_eq!(Error::conflict("x").status(), 409);
    assert_eq!(Error::internal("x").status(), 500);
    assert_eq!(Error::reply(418, "teapot", "x").status(), 418);
}

#[test]
fn timelines_are_chronological() {
    let mut line: Vec<Moment> = Vec::new();
    for (at, id) in [(5, "b"), (3, "c"), (5, "a"), (9, "d")] {
        riauth::timeline::enter(&mut line, at, id);
    }
    let order: Vec<u64> = line.iter().map(|m| m.at).collect();
    assert_eq!(order, vec![3, 5, 5, 9]);
}

#[test]
fn vault_requests_are_addressed_by_key() {
    assert_eq!(riauth::kms::read_vault_credential(" token \n").ok().unwrap(), "token");
    assert!(riauth::kms::read_vault_credential("").is_err());
    let signer = VaultSigner {
        address: s("https://vault.test"),
        mount: s("transit"),
        key_name: s("id"),
        key_version: 2,
        public_jwk: signing_jwk(),
        token_file: s("token"),
        ca_file: None,
        namespace: None,
    };
    let (url, body) = signer.sign_request("abc");
    assert!(url.starts_with("https://vault.test/v1/transit/sign/id"));
    assert_eq!(body.get_text("input").map(|t| t.as_str()), Some("YWJj"));
    assert_eq!(riauth::kms::signing_input(&b"{}".to_vec(), &b"{}".to_vec()), "e30.e30");
    assert_eq!(riauth::kms::signed_token("e30.e30", &vec![255, 255]), "e30.e30.__8");
    let unknown = RemoteKey { signer: s("nobody"), key_version: 1, public_jwk: signing_jwk() };
    assert!(provider().find_signer(&unknown).is_err());
}

#[test]
fn templates_meet_the_rules_of_the_provider() {
    let idp = provider();
    let mut tx = store(NOW);
    let mut settings = ProviderSettings::plain();
    settings.token_managers = (0..33).map(|i| format!("manager-{i}")).fold(Names::new(), |mut n, name| {
        n.insert(&name);
        n
    });
    let template = RegistrationTemplate {
        id: s("partners"),
        redirect_uris: vec![s("https://app.test/callback")],
        scopes: names(&["openid"]),
        grant_types: names(&["authorization_code", "refresh_token"]),
        auth_methods: names(&["none"]),
        settings,
        allowed_groups: Names::new(),
        require_mfa: true,
        ttl: 3600,
        max_uses: 1,
    };
    let sample = riauth::registration::sample_client(&template);
    assert_eq!(sample.id, "registration-validation");
    assert!(sample.settings.allowed_grants.contains("refresh_token"));
    assert!(sample.require_mfa && sample.enabled && !sample.service);
    assert_eq!(
        message(&idp.registration_template(&mut tx, &principal(), &template, &None, &rules())),
        "bad: At most 32 token managers are allowed",
    );
    assert_eq!(tx.registrations.len(), 0);
}

fn archive() -> (Json, ArchiveManifest, Vec<Result<RecordsChunk, Error>>) {
    let envelope = object(&[
        ("api_version", text("riauth.backup/v2")),
        ("created_at", Json::Unsigned(NOW)),
        ("encrypted", Json::Bool(true)),
        ("chunks", Json::Array(vec![text("sealed-0"), text("sealed-1"), text("sealed-manifest")])),
    ]);
    let manifest = ArchiveManifest {
        kind: s("manifest"),
        api_version: s("riauth.backup/v2"),
        created_at: NOW,
        issuer: s("https://id.test"),
        record_count: 3,
        digests: vec![riauth::outside::digest("sealed-0"), riauth::outside::digest("sealed-1")],
    };
    let first = RecordsChunk {
        kind: s("records"),
        index: 0,
        names: vec![s("meta/issuer"), s("meta/schema")],
        values: vec![text("https://id.test"), Json::Unsigned(3)],
    };
    let second = RecordsChunk {
        kind: s("records"),
        index: 1,
        names: vec![s("users/u-1")],
        values: vec![text("alice")],
    };
    (envelope, manifest, vec![Ok(first), Ok(second)])
}

#[test]
fn restoring_gives_back_every_record() {
    let (envelope, manifest, pages) = archive();
    assert_eq!(riauth::operations::count_pages(&envelope).ok(), Some(2));
    let records = riauth::operations::restore(&envelope, &Ok(manifest), &pages, 5).ok().unwrap();
    assert_eq!(records.len(), 3);
    assert_eq!(records.get("users/u-1").unwrap().as_text().map(|t| t.as_str()), Some("alice"));
}

#[test]
fn archives_are_checked_before_they_are_restored() {
    let restore = |envelope: &Json, manifest: ArchiveManifest, pages: &Vec<Result<RecordsChunk, Error>>, schema: u64| {
        message(&riauth::operations::restore(envelope, &Ok(manifest), pages, schema))
    };
    let (envelope, manifest, pages) = archive();
    assert_eq!(restore(&envelope, manifest, &pages, 2), "bad: Unsupported backup schema");
    let (envelope, mut manifest, pages) = archive();
    manifest.issuer = s("https://other.test");
    assert_eq!(restore(&envelope, manifest, &pages, 5), "bad: Backup issuer mismatch");
    let (envelope, mut manifest, pages) = archive();
    manifest.record_count = 4;
    assert_eq!(restore(&envelope, manifest, &pages, 5), "bad: Unsupported backup schema");
    let (envelope, manifest, mut pages) = archive();
    pages[1] = Ok(RecordsChunk {
        kind: s("records"),
        index: 1,
        names: vec![s("meta/schema")],
        values: vec![Json::Unsigned(3)],
    });
    assert_eq!(restore(&envelope, manifest, &pages, 5), "bad: Backup payload is invalid");
    let (mut envelope, manifest, _) = archive();
    envelope.set("chunks", Json::Array(vec![text("sealed-0"), text("sealed-manifest")]));
    let (_, _, mut pages) = archive();
    pages.truncate(1);
    assert_eq!(restore(&envelope, manifest, &pages, 5), "bad: Backup payload is invalid");
    let (mut envelope, manifest, _) = archive();
    envelope.set("chunks", Json::Array(Vec::new()));
    assert_eq!(restore(&envelope, manifest, &Vec::new(), 5), "bad: Unsupported backup format");
    let (mut envelope, manifest, _) = archive();
    envelope.set("chunks", Json::Array(vec![Json::Null]));
    assert_eq!(restore(&envelope, manifest, &Vec::new(), 5), "bad: Invalid backup ciphertext");
    let (mut envelope, manifest, pages) = archive();
    envelope.set("encrypted", Json::Bool(false));
    assert_eq!(restore(&envelope, manifest, &pages, 5), "bad: Unsupported backup format");
}

#[test]
fn archives_in_one_piece_are_checked() {
    let make = || {
        let mut records: Table<Json> = Table::new();
        records.put("meta/schema", Json::Unsigned(1));
        records.put("meta/issuer", text("https://id.test"));
        WholeBackup { api_version: s("riauth.backup/v1"), issuer: s("https://id.test"), records }
    };
    assert!(make().check(5).is_ok());
    assert_eq!(message(&make().check(0)), "bad: Unsupported backup schema");
    let mut other = make();
    other.issuer = s("https://other.test");
    assert_eq!(message(&other.check(5)), "bad: Backup issuer mismatch");
    let mut broken = make();
    broken.records.put("users", Json::Null);
    assert_eq!(message(&broken.check(5)), "bad: Invalid backup record key");
    assert_eq!(
        message(&riauth::operations::sealed_text(&object(&[]))),
        "bad: Missing backup ciphertext",
    );
}

#[test]
fn inventories_list_what_the_filter_names() {
    let row = |name: &str, run: Option<&str>, allowed: bool| InventoryRow {
        name: s(name),
        run_id: run.map(s),
        allowed,
    };
    let rows = vec![row("alice", None, true), row("bob", None, true), row("malice", None, false), row("alina", None, true)];
    let idp = provider();
    let list = |kind: InventoryKind, filter: &Option<String>, rows: &Vec<InventoryRow>, asked: usize| {
        idp.inventory(kind, filter, rows, asked)
    };
    let (shown, examined, more) = list(InventoryKind::Users, &Some(s("ali")), &rows, 10);
    assert_eq!(shown, vec![true, false, false, true]);
    assert_eq!((examined, more), (4, false));
    let (_, examined, more) = list(InventoryKind::Users, &Some(s("ali")), &rows, 1);
    assert_eq!((examined, more), (1, true));
    let events = vec![row("events", Some("run-1"), true), row("events", Some("run-2"), true)];
    let (shown, _, _) = list(InventoryKind::Audit, &Some(s("run-2")), &events, 0);
    assert_eq!(shown, vec![false, true]);
}

#[test]
fn a_refused_credential_is_tried_once_more() {
    let mut with_oauth = target();
    with_oauth.token_file = None;
    with_oauth.oauth = Some(oauth());
    let mut allowed = url_rules();
    allowed.server_urls.insert("https://login.test/token");
    let mut cache = TokenCache::new();
    let key = riauth::provisioning::token::cache_key("crm", "print");
    let secret = Ok(s("secret"));
    assert!(with_oauth.bearer(&cache, &key, &secret, NOW, &allowed).ok().unwrap().is_none());
    let issued = IssuedToken { token: s("abc"), expires_at: NOW + 60, fingerprint: s("f") };
    let kept = riauth::provisioning::token::keep_bearer(&mut cache, "crm", &key, "secret", &issued, Ok(())).ok().unwrap();
    assert_eq!(with_oauth.bearer(&cache, &key, &secret, NOW, &allowed).ok().unwrap().unwrap().token, "abc");
    assert_eq!(with_oauth.authorized(&mut cache, &key, kept.generation, false, 200).ok(), Some(Authorized::Answered));
    assert_eq!(with_oauth.authorized(&mut cache, &key, kept.generation, false, 401).ok(), Some(Authorized::Again));
    assert!(with_oauth.bearer(&cache, &key, &secret, NOW, &allowed).ok().unwrap().is_none());
    assert!(message(&with_oauth.authorized(&mut cache, &key, kept.generation, true, 401)).starts_with("502 provisioning_remote_error"));
    let lost = riauth::provisioning::token::keep_bearer(&mut cache, "crm", &key, "secret", &issued, Err(Error::internal("full")));
    assert_eq!(message(&lost), "internal: full");
    assert_eq!(cache.slots.len(), 0);
    let fixed = target().bearer(&cache, &key, &Ok(s("fixed")), NOW, &allowed).ok().unwrap().unwrap();
    assert_eq!((fixed.generation, fixed.token), (0, s("fixed")));
    let ask = riauth::provisioning::token::request_token;
    assert!(ask(false, Err(riauth::provisioning::token::token_refused(503))).ok().unwrap().is_none());
    assert!(message(&ask(true, Err(riauth::provisioning::token::token_refused(503)))).ends_with("HTTP 503"));
    assert!(message(&ask(false, Err(riauth::provisioning::token::token_refused(400)))).ends_with("HTTP 400"));
    assert_eq!(ask(false, Ok(issued)).ok().unwrap().unwrap().token, "abc");
}

#[test]
fn a_failed_delivery_is_noted_by_its_code() {
    let idp = provider();
    let mut tx = staffed();
    let plan = idp.provisioning_plan(&mut tx, &principal(), "crm", &target(), "print", &url_rules()).ok().unwrap();
    let job = riauth::provisioning::Job {
        total: plan.resources.len(),
        plan,
        cursor: 0,
        completed: false,
        stale: false,
        next_attempt: NOW,
        attempts: 1,
        lease: Some(s("lease")),
        error: None,
    };
    let id = job.plan.id.clone();
    let nobody = AgentStanding { known: false, active: false, permitted: false };
    assert!(!idp.author_permitted(&tx, &job, &nobody));
    let mut author = user("admin", "author");
    author.admin = true;
    add_user(&mut tx, author);
    assert!(idp.author_permitted(&tx, &job, &nobody));
    let mut delegated = riauth::table::Row::dup(&job);
    delegated.plan.actor = s("agent:sync");
    assert!(!idp.author_permitted(&tx, &delegated, &nobody));
    assert!(idp.author_permitted(&tx, &delegated, &AgentStanding { known: true, active: true, permitted: true }));
    for (error, code) in [
        (Error::reply(502, "provisioning_remote_error", "x"), "provisioning_remote_error"),
        (Error::conflict("x"), "conflict"),
        (Error::missing("x"), "not_found"),
        (Error::Forbidden, "access_denied"),
        (Error::bad("x"), "failed"),
    ] {
        tx.provisioning_jobs.put(&id, riauth::table::Row::dup(&job));
        idp.fail_provisioning(&mut tx, &job, &error, "failed");
        let after = tx.provisioning_jobs.get(&id).unwrap();
        assert_eq!(after.error.as_deref(), Some(code));
        assert!(after.lease.is_none());
        assert_eq!(after.next_attempt, NOW + 2);
    }
}

#[test]
fn every_client_is_told_once() {
    let mut tx = store(NOW);
    let mut told = client("told");
    told.settings.backchannel_logout_uri = Some(s("https://told.test/logout"));
    tx.clients.put("told", told);
    tx.clients.put("quiet", client("quiet"));
    for (sid, user, client, ended) in [
        ("a", "u-1", "told", false),
        ("b", "u-1", "quiet", false),
        ("c", "u-1", "told", true),
        ("d", "u-2", "told", false),
    ] {
        tx.rp_sessions.put(
            sid,
            RpSession {
                sid: s(sid),
                session_id: s("s"),
                user_id: s(user),
                subject: s("subject"),
                client_id: s(client),
                created_at: NOW,
                expires_at: NOW + 60,
                ended,
            },
        );
    }
    riauth::logout::queue_user(&mut tx, "u-1");
    riauth::logout::queue_user(&mut tx, "u-1");
    assert_eq!(tx.logout_deliveries.len(), 1);
    let delivery = tx.logout_deliveries.row_at(0);
    assert_eq!((delivery.sid.as_str(), delivery.attempts, delivery.delivered_at), ("a", 0, None));
    assert!(tx.rp_sessions.get("b").unwrap().ended);
    assert!(!tx.rp_sessions.get("d").unwrap().ended);
}

#[test]
fn a_backup_gives_back_the_store() {
    let mut records: Table<Json> = Table::new();
    records.put("meta/schema", Json::Unsigned(3));
    records.put("users/u-2", text("bob"));
    records.put("meta/issuer", text("https://id.test"));
    records.put("users/u-1", text("alice"));
    records.put("groups/staff", text("staff"));
    let pages = riauth::operations::archive::draft_pages(&records, 2);
    assert_eq!(pages.len(), 3);
    assert_eq!(pages[0].names, vec![s("groups/staff"), s("meta/issuer")]);
    assert_eq!(pages[2].names, vec![s("users/u-2")]);
    assert_eq!(
        riauth::operations::archive::write_page(&pages[2]).ok().unwrap(),
        "{\"kind\":\"records\",\"index\":2,\"records\":{\"users/u-2\":\"bob\"}}",
    );
    assert_eq!(
        message(&riauth::operations::archive::bounded_backup_json(&text("abc"), 4)),
        "bad: Backup plaintext page exceeds 8 MiB",
    );
    let sealed: Vec<Result<String, Error>> = (0..pages.len()).map(|i| Ok(format!("sealed-{i}"))).collect();
    let progress = riauth::operations::archive::seal_pages(&pages, &sealed).ok().unwrap();
    assert_eq!((progress.records, progress.bytes), (5, 512 + 3 * 12));
    let manifest = progress.manifest(NOW, "https://id.test");
    let key = "AAAAAAAAAAAAAAAAAAAAAAAAAAAAAAAAAAAAAAAAAAA";
    let back_up = |key: &str, sealed: &Vec<Result<String, Error>>, manifest: &Result<String, Error>| {
        provider().backup(&records, 2, NOW, key, sealed, manifest)
    };
    let envelope = back_up(key, &sealed, &Ok(s("sealed-manifest"))).ok().unwrap();
    assert!(back_up("AAAA", &sealed, &Ok(s("sealed-manifest"))).is_err());
    assert_eq!(message(&back_up(key, &sealed, &Err(Error::internal("no key")))), "internal: no key");
    let broken = vec![Ok(s("sealed-0")), Err(Error::internal("no seal")), Ok(s("sealed-2"))];
    assert_eq!(message(&back_up(key, &broken, &Ok(s("sealed-manifest")))), "internal: no seal");
    assert_eq!(riauth::operations::archive_version(&envelope).ok(), Some(true));
    let opened: Vec<Result<RecordsChunk, Error>> = pages.into_iter().map(Ok).collect();
    let back = riauth::operations::restore(&envelope, &Ok(manifest), &opened, 5).ok().unwrap();
    assert_eq!(back.len(), records.len());
    for name in records.keys().to_list() {
        assert!(back.has(&name));
    }
    assert_eq!(back.get("users/u-2").unwrap().as_text().map(|t| t.as_str()), Some("bob"));
    let large = vec![Ok("x".repeat(67_108_864))];
    let page = riauth::operations::archive::draft_pages(&records, 9);
    assert_eq!(
        message(&riauth::operations::archive::seal_pages(&page, &large)),
        "bad: Backup archive exceeds 64 MiB",
    );
}
