//! Accounts: temporary access, passwords, mail codes, passkeys and departures.
use riauth::engine::Config;
use riauth::engine::Core;
use riauth::engine::Principal;
use riauth::error::Error;
use riauth::json::Json;
use riauth::json::Member;
use riauth::keyring::Keys;
use riauth::keyring::SigningKey;
use riauth::lifecycle::CreatorStanding;
use riauth::lifecycle::MailConfig;
use riauth::lifecycle::MailSecurity;
use riauth::lifecycle::NewPassword;
use riauth::lifecycle::Purpose;
use riauth::model::Group;
use riauth::model::Identity;
use riauth::model::Session;
use riauth::model::User;
use riauth::names::Names;
use riauth::offboarding::BeforeCommit;
use riauth::offboarding::ExecuteAt;
use riauth::offboarding::RescheduleRequest;
use riauth::offboarding::ScheduleRequest;
use riauth::offboarding::Status;
use riauth::offboarding::worker::AgentStanding;
use riauth::pam::NewAccessRequest;
use riauth::passkey::NewKey;
use riauth::passkey::PasskeyOutcome;
use riauth::rules::Rules;
use riauth::store::Tx;
use riauth::table::Table;

fn s(t: &str) -> String {
    t.to_owned()
}

fn names(list: &[&str]) -> Names {
    let mut out = Names::new();
    for item in list {
        out.insert(item);
    }
    out
}

fn rules() -> Rules {
    Rules {
        bad_names: Names::new(),
        server_urls: Names::new(),
        acr_values: Names::new(),
        response_modes: Names::new(),
        refused: Names::new(),
    }
}

fn store(now: u64) -> Tx {
    let active = SigningKey { kid: s("k1"), algorithm: s("EdDSA") };
    Tx::new(now, "seed", Keys { active, retired: Vec::new() })
}

fn provider() -> Core {
    Core {
        config: Config {
            issuer: s("https://id.test"),
            access_token_ttl: 600,
            refresh_token_ttl: 86_400,
            session_ttl: 3600,
            password_history: 3,
            signers: Table::new(),
            mail: None,
            fresh_seconds: 900,
            terminal_warn_seconds: 300,
            pam_approvers: Table::new(),
            trusted_proxies: names(&["10.0.0.1"]),
            client_certificates: None,
            native_tls: true,
        },
    }
}

fn user(id: &str, username: &str) -> User {
    User {
        has_passkeys: false,
        totp_settings: Json::Null,
        pairwise_seed: s("seed"),
        id: s(id),
        username: s(username),
        email: None,
        display_name: s(username),
        password_hash: s("hash"),
        enabled: true,
        admin: false,
        epoch: 1,
        totp_secret: None,
        totp_pending: None,
        totp_last_step: None,
        created_at: 0,
        attributes: Table::new(),
        email_verified: false,
        subjects: Table::new(),
        recovery_codes: Names::new(),
    }
}

fn add_user(tx: &mut Tx, user: User) {
    let name = user.username.clone();
    let id = user.id.clone();
    tx.usernames.put(&name, id.clone());
    tx.users.put(&id, user);
}

fn identity(user_id: &str, session_id: &str, auth_time: u64) -> Identity {
    Identity {
        amr: vec![s("pwd")],
        source: None,
        user_id: s(user_id),
        epoch: 1,
        mfa: false,
        auth_time,
        session_id: s(session_id),
    }
}

fn session(id: &str, user_id: &str, auth_time: u64) -> Session {
    Session {
        id: s(id),
        token_hash: s("token-hash"),
        identity: identity(user_id, id, auth_time),
        expires_at: auth_time + 3600,
        revoked: false,
    }
}

fn principal() -> Principal {
    Principal { id: s("admin"), agent: false }
}

fn message<T>(r: &Result<T, Error>) -> String {
    match r {
        Ok(_) => s("ok"),
        Err(Error::Bad(m)) => format!("bad: {m}"),
        Err(Error::Oauth(code, m)) => format!("{code}: {m}"),
        Err(Error::Unauthorized) => s("unauthorized"),
        Err(Error::Forbidden) => s("forbidden"),
        Err(Error::Missing(m)) => format!("missing: {m}"),
        Err(Error::Conflict(m)) => format!("conflict: {m}"),
        Err(Error::Internal(m)) => format!("internal: {m}"),
        Err(Error::Reply(status, code, m)) => format!("{status} {code}: {m}"),
        Err(Error::Name(m)) => format!("name: {m}"),
        Err(Error::Refused(m)) => format!("refused: {m}"),
    }
}

fn object(members: &[(&str, Json)]) -> Json {
    let mut out = Json::object(Vec::new());
    for (key, value) in members {
        out.set(key, copy_json(value));
    }
    out
}

fn copy_json(v: &Json) -> Json {
    match v {
        Json::Null => Json::Null,
        Json::Bool(b) => Json::Bool(*b),
        Json::Unsigned(n) => Json::Unsigned(*n),
        Json::Negative(n) => Json::Negative(*n),
        Json::Fraction(t) => Json::Fraction(t.clone()),
        Json::Text(t) => Json::Text(t.clone()),
        Json::Array(list) => Json::Array(list.iter().map(copy_json).collect()),
        Json::Object(members) => Json::Object(
            members.iter().map(|m| Member { key: m.key.clone(), value: copy_json(&m.value) }).collect(),
        ),
    }
}

fn text(t: &str) -> Json {
    Json::Text(s(t))
}

const NOW: u64 = 1_800_000_000;

fn approving_core() -> Core {
    let mut idp = provider();
    idp.config.pam_approvers.put("ops", names(&["bob"]));
    idp
}

fn with_ops() -> Tx {
    let mut tx = store(NOW);
    add_user(&mut tx, user("u-1", "alice"));
    add_user(&mut tx, user("u-2", "bob"));
    tx.groups.put("ops", Group { name: s("ops"), members: Names::new() });
    tx
}

fn wish(ttl: u64) -> NewAccessRequest {
    NewAccessRequest { group: s("ops"), reason: s("incident 7"), ttl }
}

#[test]
fn access_is_decided_by_another_person_once() {
    let idp = approving_core();
    let mut tx = with_ops();
    let alice = user("u-1", "alice");
    let bob = user("u-2", "bob");
    let request = idp.request_access(&mut tx, &alice, &wish(600), &rules()).ok().unwrap();
    assert_eq!(request.status, "pending");
    assert_eq!(message(&idp.decide_access(&mut tx, &alice, &request.id, true)), "forbidden");
    let decision = idp.decide_access(&mut tx, &bob, &request.id, true).ok().unwrap();
    let grant = decision.grant.unwrap();
    assert_eq!(grant.expires_at, NOW + 600);
    assert!(riauth::pam::extra_groups(&tx, "u-1", NOW).contains("ops"));
    assert!(!riauth::pam::extra_groups(&tx, "u-1", NOW + 600).contains("ops"));
    assert_eq!(
        message(&idp.decide_access(&mut tx, &bob, &request.id, false)),
        "conflict: Access request is already decided",
    );
    assert!(idp.revoke_access(&mut tx, &bob, &grant.id).is_ok());
    assert!(!riauth::pam::extra_groups(&tx, "u-1", NOW).contains("ops"));
    assert!(tx.groups.get("ops").unwrap().members.is_empty());
    assert_eq!(idp.list_access_requests(&tx).len(), 1);
    assert_eq!(idp.list_access_grants(&tx).len(), 1);
}

#[test]
fn access_requests_are_checked() {
    let idp = approving_core();
    let mut tx = with_ops();
    let alice = user("u-1", "alice");
    let ask = |tx: &mut Tx, idp: &Core, input: &NewAccessRequest| message(&idp.request_access(tx, &alice, input, &rules()));
    assert_eq!(ask(&mut tx, &idp, &wish(59)), "bad: Duration must be 60–86400 seconds");
    assert_eq!(ask(&mut tx, &idp, &wish(86_401)), "bad: Duration must be 60–86400 seconds");
    let mut unknown = wish(60);
    unknown.group = s("nobody");
    assert_eq!(ask(&mut tx, &idp, &unknown), "bad: Unknown group");
    tx.groups.put("free", Group { name: s("free"), members: Names::new() });
    unknown.group = s("free");
    assert_eq!(ask(&mut tx, &idp, &unknown), "bad: No approver rule for this group");
    assert!(riauth::pam::validate_reason("").is_err());
    assert!(riauth::pam::validate_reason("a reason").is_ok());
    assert_eq!(
        message(&idp.decide_access(&mut tx, &alice, "unknown", true)),
        "missing: Access request not found",
    );
}

#[test]
fn an_accepted_password_cannot_be_repeated() {
    let mut tx = store(NOW);
    let none = Names::new();
    let accept = riauth::password_history::accept;
    assert!(accept(&mut tx, 3, "u-1", "h0", &none, "h1").is_ok());
    assert_eq!(
        message(&accept(&mut tx, 3, "u-1", "h1", &names(&["h1"]), "h1-again")),
        "bad: Password was used recently",
    );
    assert_eq!(
        message(&accept(&mut tx, 3, "u-1", "h1", &names(&["h0"]), "h0-again")),
        "bad: Password was used recently",
    );
    for i in 2..9 {
        let before = format!("h{}", i - 1);
        let after = format!("h{i}");
        assert!(accept(&mut tx, 3, "u-1", &before, &none, &after).is_ok());
    }
    assert!(tx.password_history.get("u-1").unwrap().hashes.len() <= 3);
    assert!(accept(&mut tx, 0, "u-2", "h", &names(&["h"]), "h").is_ok());
    assert!(tx.password_history.get("u-2").is_none());
}

fn mailed(tx: &mut Tx, purpose: Purpose) -> String {
    let known = || {
        let mut alice = user("u-1", "alice");
        alice.email = Some(s("alice@example.test"));
        alice.email_verified = purpose == Purpose::Reset;
        alice
    };
    add_user(tx, known());
    let again = known();
    let sent = riauth::lifecycle::enqueue(tx, "https://id.test", &again, purpose, Names::new(), None, &rules());
    assert!(sent.is_ok());
    let delivery = tx.mail_deliveries.row_at(0);
    let body = delivery.body.as_ref().unwrap();
    let at = body.find("ri_mail_").unwrap();
    body[at..].split_whitespace().next().unwrap().to_owned()
}

fn nobody() -> CreatorStanding {
    CreatorStanding { agent: false, write: false, groups: Names::new() }
}

#[test]
fn a_mail_code_works_once_and_for_its_purpose() {
    let idp = provider();
    let mut tx = store(NOW);
    let code = mailed(&mut tx, Purpose::Reset);
    let fresh = || Some(NewPassword { hash: s("new-hash"), matching: Names::new() });
    assert_eq!(
        message(&idp.account_complete(&mut tx, &code, Purpose::Verify, &None, &nobody())),
        "bad: Account code expired, consumed or invalid",
    );
    assert_eq!(
        message(&idp.account_complete(&mut tx, &code, Purpose::Reset, &None, &nobody())),
        "bad: New password required",
    );
    assert_eq!(
        message(&idp.account_complete(&mut tx, "other", Purpose::Reset, &fresh(), &nobody())),
        "bad: Invalid account code",
    );
    assert!(idp.account_complete(&mut tx, &code, Purpose::Reset, &fresh(), &nobody()).is_ok());
    assert_eq!(tx.users.get("u-1").unwrap().password_hash, "new-hash");
    assert_eq!(
        message(&idp.account_complete(&mut tx, &code, Purpose::Reset, &fresh(), &nobody())),
        "bad: Account code expired, consumed or invalid",
    );
}

#[test]
fn a_verification_code_verifies_the_address() {
    let idp = provider();
    let mut tx = store(NOW);
    let code = mailed(&mut tx, Purpose::Verify);
    let fresh = Some(NewPassword { hash: s("new-hash"), matching: Names::new() });
    assert_eq!(
        message(&idp.account_complete(&mut tx, &code, Purpose::Verify, &fresh, &nobody())),
        "bad: Verification does not accept a password",
    );
    assert!(idp.account_complete(&mut tx, &code, Purpose::Verify, &None, &nobody()).is_ok());
    assert!(tx.users.get("u-1").unwrap().email_verified);
}

#[test]
fn a_changed_account_voids_its_code() {
    let idp = provider();
    let mut tx = store(NOW);
    let code = mailed(&mut tx, Purpose::Verify);
    let mut changed = user("u-1", "alice");
    changed.email = Some(s("other@example.test"));
    tx.users.put("u-1", changed);
    assert_eq!(
        message(&idp.account_complete(&mut tx, &code, Purpose::Verify, &None, &nobody())),
        "bad: Account changed; request a new code",
    );
}

#[test]
fn messages_are_sent_while_their_code_works() {
    let idp = provider();
    let mut tx = store(NOW);
    mailed(&mut tx, Purpose::Verify);
    let due = vec![tx.mail_deliveries.key_at(0).clone()];
    let taken = idp.claim_mail(&mut tx, &due);
    assert_eq!(taken.len(), 1);
    assert_eq!(taken[0].recipient, "alice@example.test");
    assert_eq!(taken[0].attempts, 1);
    assert_eq!(idp.claim_mail(&mut tx, &due).len(), 0);
    idp.finish_mail(&mut tx, &taken[0], true);
    let kept = tx.mail_deliveries.get(&due[0]).unwrap();
    assert_eq!(kept.delivered_at, Some(NOW));
    assert!(kept.body.is_none());
    assert_eq!(idp.mail_deliveries(&tx).len(), 1);
}

#[test]
fn messages_of_dead_codes_are_dropped() {
    let idp = provider();
    let mut tx = store(NOW);
    mailed(&mut tx, Purpose::Verify);
    let due = vec![tx.mail_deliveries.key_at(0).clone()];
    let proof = tx.mail_deliveries.row_at(0).proof.clone();
    tx.account_proofs.delete(&proof);
    assert_eq!(idp.claim_mail(&mut tx, &due).len(), 0);
    assert!(tx.mail_deliveries.get(&due[0]).unwrap().stopped);
}

#[test]
fn mail_addresses_are_checked() {
    let check = |address: &str| message(&riauth::lifecycle::email(address, &rules()));
    assert_eq!(check("alice@example.test"), "ok");
    assert_ne!(check("no address"), "ok");
    let mail = |host: &str, from: &str| MailConfig {
        host: s(host),
        port: 465,
        from: s(from),
        security: MailSecurity::Tls,
        username: None,
        password_file: None,
    };
    assert!(mail("mail.test", "riAuth <noreply@example.test>").validate(false).is_ok());
    assert!(mail("mail.test", "nothing at all").validate(false).is_err());
}

#[test]
fn mail_is_rationed_within_the_hour() {
    let mut tx = store(NOW);
    let ask = |tx: &mut Tx| riauth::lifecycle::request_allowed(tx, "alice", Purpose::Reset);
    assert!(ask(&mut tx));
    assert!(!ask(&mut tx));
    tx.now = NOW + 60;
    assert!(ask(&mut tx));
    let mut allowed = 2;
    for minute in 2..60 {
        tx.now = NOW + minute * 60;
        if ask(&mut tx) {
            allowed += 1;
        }
    }
    assert!(allowed <= 5);
}

fn moment(at: u64) -> ScheduleRequest {
    ScheduleRequest { username: s("alice"), execute_at: ExecuteAt::Unix(at), timezone: s("Europe/Berlin") }
}

fn review() -> riauth::offboarding::worker::Review {
    riauth::offboarding::worker::Review {
        agent: AgentStanding { known: false, active: false, permitted: false },
        remaining: None,
        targets: false,
        messages: Table::new(),
    }
}

#[test]
fn a_departure_is_executed_by_its_lease_holder() {
    let idp = provider();
    let mut tx = store(NOW);
    add_user(&mut tx, user("u-1", "alice"));
    tx.sessions.put("s-1", session("s-1", "u-1", NOW));
    let mut root = user("admin", "root");
    root.admin = true;
    add_user(&mut tx, root);
    let job = idp.offboard_schedule(&mut tx, &principal(), &moment(NOW + 3600), &None, &rules()).ok().unwrap();
    assert_eq!(job.status, Status::Scheduled);
    assert_eq!(
        message(&idp.offboard_schedule(&mut tx, &principal(), &moment(NOW + 7200), &None, &rules())),
        "conflict: User already has an active offboarding job",
    );
    let due = vec![job.id.clone()];
    assert!(idp.offboard_claim(&mut tx, &due, "worker-1").ok().unwrap().is_none());
    tx.now = NOW + 3600;
    let taken = idp.offboard_claim(&mut tx, &due, "worker-1").ok().unwrap().unwrap();
    assert_eq!(taken.attempts, 1);
    assert!(idp.offboard_claim(&mut tx, &due, "worker-2").ok().unwrap().is_none());
    assert_eq!(
        message(&idp.offboard_commit(&mut tx, "worker-2", &job.id, BeforeCommit::Proceed, &review())),
        "409 lease_lost: Offboarding lease is no longer held",
    );
    assert_eq!(
        message(&idp.offboard_commit(&mut tx, "worker-1", &job.id, BeforeCommit::RetryableFailure, &review())),
        "503 offboard_retry: Offboarding attempt failed before changes were committed",
    );
    let done = idp.offboard_commit(&mut tx, "worker-1", &job.id, BeforeCommit::Proceed, &review()).ok().unwrap();
    assert_eq!(done.status, Status::Done);
    assert!(!tx.users.get("u-1").unwrap().enabled);
    assert!(!done.active());
    let again = idp.offboard_commit(&mut tx, "worker-2", &job.id, BeforeCommit::Proceed, &review()).ok().unwrap();
    assert_eq!(again.status, done.status);
}

#[test]
fn a_departure_can_be_called_off() {
    let idp = provider();
    let mut tx = store(NOW);
    add_user(&mut tx, user("u-1", "alice"));
    let job = idp.offboard_schedule(&mut tx, &principal(), &moment(NOW + 3600), &None, &rules()).ok().unwrap();
    let ended = idp.offboard_cancel(&mut tx, &principal(), &job.id).ok().unwrap();
    assert_eq!(ended.status, Status::Cancelled);
    tx.now = NOW + 4000;
    assert!(idp.offboard_claim(&mut tx, &vec![job.id.clone()], "worker-1").ok().unwrap().is_none());
    assert!(tx.users.get("u-1").unwrap().enabled);
    assert_eq!(idp.offboard_list(&tx, &names(&["alice"])).len(), 1);
    assert_eq!(idp.offboard_list(&tx, &Names::new()).len(), 0);
}

#[test]
fn instants_are_absolute() {
    let read = |t: &str| riauth::offboarding::absolute_unix(&ExecuteAt::Rfc3339(s(t)));
    assert_eq!(read("2027-01-15T08:00:00Z").ok(), Some(1_800_000_000));
    assert_eq!(read("2027-01-15T09:00:00+01:00").ok(), Some(1_800_000_000));
    assert!(read("2027-01-15T08:00:00").is_err());
    assert!(read("tomorrow").is_err());
    assert_eq!(riauth::offboarding::absolute_unix(&ExecuteAt::Unix(5)).ok(), Some(5));
    assert_eq!(
        riauth::offboarding::format_rfc3339(1_800_000_000).ok().unwrap(),
        "2027-01-15T08:00:00Z",
    );
    assert_eq!(
        riauth::offboarding::format_rfc3339_at_offset(1_800_000_000, 1).ok().unwrap(),
        "2027-01-15T09:00:00+01:00",
    );
    assert!(riauth::offboarding::valid_timezone_label("Europe/Berlin"));
    assert!(!riauth::offboarding::valid_timezone_label("Europe Berlin"));
}

#[test]
fn passkey_ceremonies_start_with_a_challenge() {
    let idp = provider();
    let mut tx = store(NOW);
    let alice = user("u-1", "alice");
    let login = session("s-1", "u-1", NOW);
    add_user(&mut tx, user("u-1", "alice"));
    let started = idp.passkey_register_start(&mut tx, &alice, &login, "laptop", &None, &rules()).ok().unwrap();
    assert!(started.ceremony.starts_with("ri_passkey_enroll_"));
    assert!(started.challenge.contains("\"challenge\""));
    assert!(started.challenge.contains("\"riAuth\""));
    assert!(started.challenge.contains("\"id.test\""));
    assert_eq!(tx.passkey_registration.len(), 1);
    assert_eq!(
        message(&idp.passkey_register_finish(&mut tx, &alice, &login, &started.ceremony, "{}")),
        "bad: Passkey registration verification failed",
    );
    assert_eq!(tx.passkey_registration.len(), 0);
    assert_eq!(
        message(&idp.passkey_register_finish(&mut tx, &alice, &login, &started.ceremony, "{}")),
        "unauthorized",
    );
    tx.now = NOW + 901;
    assert_eq!(
        message(&idp.passkey_register_start(&mut tx, &alice, &login, "laptop", &None, &rules())),
        "refused: reauthentication_required",
    );
}

#[test]
fn passkey_logins_fail_closed() {
    let idp = provider();
    let mut tx = store(NOW);
    add_user(&mut tx, user("u-1", "alice"));
    let started = idp.passkey_login_start(&mut tx, "alice", &None, &rules()).ok().unwrap();
    assert!(started.ceremony.starts_with("ri_passkey_auth_"));
    assert!(tx.passkey_authentication.row_at(0).state.is_none());
    assert_eq!(message(&idp.passkey_login_finish(&mut tx, &started.ceremony, "{}")), "unauthorized");
    assert_eq!(tx.audit.last().unwrap().action, "passkey.login_failed");
    assert_eq!(tx.passkey_authentication.len(), 0);
    let browser = idp.browser_passkey_start(&mut tx, &None, "portal", "hash").ok().unwrap();
    assert!(tx.passkey_authentication.row_at(0).discoverable.is_some());
    assert_eq!(
        message(&idp.browser_passkey_finish(&mut tx, &browser.ceremony, "{}", "portal", &Some(s("wrong")), &None)),
        "unauthorized",
    );
    assert_eq!(
        message(&idp.browser_passkey_start(&mut tx, &Some(s("u-1")), "portal", "hash")),
        "409 no_passkey: This account has no passkey. Sign in with your password.",
    );
    let mut numeric = riauth::passkey::ceremony::webauthn("https://127.0.0.1");
    assert_eq!(message(&numeric), "bad: Invalid WebAuthn relying-party origin");
    numeric = riauth::passkey::ceremony::webauthn("nothing");
    assert_eq!(message(&numeric), "internal: issuer");
    assert_eq!(riauth::passkey::ceremony::webauthn("https://id.test/").ok().unwrap().id, "id.test");
    assert_eq!(riauth::passkey::ceremony::webauthn("https://id.test:8443/x").ok().unwrap().origin, "https://id.test:8443");
}

fn enrolled(tx: &mut Tx, idp: &Core) -> String {
    let alice = user("u-1", "alice");
    let login = session("s-1", "u-1", NOW);
    add_user(tx, user("u-1", "alice"));
    let ceremony = idp
        .passkey_register_start_with(tx, &alice, &login, "laptop", "state", &None, &rules())
        .ok()
        .unwrap();
    let key = Some(NewKey { raw_id: vec![1, 2, 3], key: s("key") });
    idp.passkey_register_finish_with(tx, &alice, &login, &ceremony, &key).ok().unwrap().id
}

fn outcome(counter: u32) -> PasskeyOutcome {
    PasskeyOutcome {
        site: None,
        has_handle: true,
        handle: riauth::passkey::handle("u-1"),
        claimed_id: vec![1, 2, 3],
        verified: true,
        user_verified: true,
        raw_id: vec![1, 2, 3],
        counter,
        key: Some(s("key")),
    }
}

#[test]
fn an_enrolled_passkey_logs_in_with_a_growing_counter() {
    let idp = provider();
    let mut tx = store(NOW);
    let id = enrolled(&mut tx, &idp);
    assert_eq!(id, riauth::passkey::credential_key(&vec![1, 2, 3]));
    assert_eq!(tx.users.get("u-1").unwrap().epoch, 2);
    let begin = |tx: &mut Tx| {
        idp.passkey_login_start_with(tx, "alice", &None, &Some(s("state")), &rules()).ok().unwrap()
    };
    let ceremony = begin(&mut tx);
    let login = idp.passkey_login_finish_with(&mut tx, &ceremony, &outcome(5)).ok().unwrap();
    assert_eq!(login.expires_at, NOW + 3600);
    assert_eq!(message(&idp.passkey_login_finish_with(&mut tx, &ceremony, &outcome(6))), "unauthorized");
    let ceremony = begin(&mut tx);
    assert_eq!(message(&idp.passkey_login_finish_with(&mut tx, &ceremony, &outcome(5))), "unauthorized");
    let ceremony = begin(&mut tx);
    assert!(idp.passkey_login_finish_with(&mut tx, &ceremony, &outcome(6)).is_ok());
    assert_eq!(provider().passkeys(&tx, "u-1").len(), 1);
}

#[test]
fn a_ceremony_stays_in_its_browser() {
    let idp = provider();
    let mut tx = store(NOW);
    enrolled(&mut tx, &idp);
    let binding = riauth::outside::digest("browser");
    let begin = |tx: &mut Tx| idp.browser_passkey_start_with(tx, &None, "portal", &binding, "state").ok().unwrap();
    let ceremony = begin(&mut tx);
    let other = idp.browser_passkey_finish_with(&mut tx, &ceremony, "portal", &Some(s("other")), &None, &outcome(1));
    assert_eq!(message(&other), "unauthorized");
    let ceremony = begin(&mut tx);
    let own = idp.browser_passkey_finish_with(&mut tx, &ceremony, "portal", &Some(s("browser")), &None, &outcome(1));
    assert_eq!(own.ok().unwrap().identity.user_id, "u-1");
    let again = idp.browser_passkey_finish_with(&mut tx, &ceremony, "portal", &Some(s("browser")), &None, &outcome(2));
    assert_eq!(message(&again), "unauthorized");
    let ceremony = begin(&mut tx);
    let mut strange = outcome(2);
    strange.claimed_id = vec![9];
    let unknown = idp.browser_passkey_finish_with(&mut tx, &ceremony, "portal", &Some(s("browser")), &None, &strange);
    assert!(message(&unknown).starts_with("401 unknown_passkey"));
    let ceremony = begin(&mut tx);
    let mut anonymous = outcome(2);
    anonymous.has_handle = false;
    let refused = idp.browser_passkey_finish_with(&mut tx, &ceremony, "portal", &Some(s("browser")), &None, &anonymous);
    assert_eq!(message(&refused), "refused: invalid_credentials");
}

#[test]
fn the_last_credential_stays() {
    let idp = provider();
    let mut tx = store(NOW);
    let id = enrolled(&mut tx, &idp);
    let login = session("s-1", "u-1", NOW);
    let mut alice = user("u-1", "alice");
    alice.password_hash = s("");
    assert_eq!(
        message(&idp.passkey_remove(&mut tx, &alice, &login, &None, &id)),
        "conflict: Establish another local credential before removing the last passkey",
    );
    assert_eq!(
        message(&idp.passkey_remove(&mut tx, &user("u-2", "bob"), &login, &None, &id)),
        "missing: Passkey not found",
    );
    assert!(idp.passkey_remove(&mut tx, &user("u-1", "alice"), &login, &None, &id).is_ok());
    assert_eq!(tx.passkeys.len(), 0);
    assert!(!tx.users.get("u-1").unwrap().has_passkeys);
}

#[test]
fn challenges_do_not_tell_how_a_key_was_enrolled() {
    let entry = object(&[("id", text("a")), ("transports", Json::Array(vec![text("usb")]))]);
    let options = object(&[("extensions", object(&[])), ("allowCredentials", Json::Array(vec![entry]))]);
    let request = object(&[("mediation", text("conditional")), ("publicKey", options)]);
    let shown = riauth::passkey::public_request(&request);
    assert!(shown.get("mediation").is_none());
    let options = shown.get("publicKey").unwrap();
    assert!(options.get("extensions").is_none());
    let a = riauth::passkey::passkey_decoy(&request, "secret", "alice");
    let b = riauth::passkey::passkey_decoy(&request, "secret", "alice");
    assert!(riauth::json::same_json(&a, &b));
    assert!(!riauth::json::same_json(&a, &riauth::passkey::passkey_decoy(&request, "secret", "bob")));
    let resident = riauth::passkey::ceremony::ask_resident(&request);
    let chosen = resident.get("publicKey").unwrap().get("authenticatorSelection").unwrap();
    assert_eq!(chosen.get_text("residentKey").map(|t| t.as_str()), Some("required"));
}

#[test]
fn a_departure_called_off_meanwhile_is_not_executed() {
    let idp = provider();
    let mut tx = store(NOW);
    add_user(&mut tx, user("u-1", "alice"));
    let mut root = user("admin", "root");
    root.admin = true;
    add_user(&mut tx, root);
    let job = idp.offboard_schedule(&mut tx, &principal(), &moment(NOW + 3600), &None, &rules()).ok().unwrap();
    tx.now = NOW + 3600;
    let due = vec![job.id.clone()];
    let taken = idp.offboard_claim(&mut tx, &due, "worker-1").ok().unwrap().unwrap();
    tx.now = NOW + 3600 + 59;
    assert!(idp.offboard_claim(&mut tx, &due, "worker-2").ok().unwrap().is_none());
    let held = tx.offboard_jobs.get(&job.id).unwrap();
    assert_eq!(held.lease_owner.as_deref(), Some("worker-1"));
    assert_eq!((held.lease_until, held.attempts), (NOW + 3660, taken.attempts));
    assert!(idp.offboard_cancel(&mut tx, &principal(), &job.id).is_ok());
    let settled = idp.offboard_settle(&mut tx, "worker-1", &job.id, BeforeCommit::Proceed, &review());
    assert_eq!(settled.ok(), Some(true));
    assert!(tx.offboard_jobs.get(&job.id).unwrap().status == riauth::offboarding::Status::Cancelled);
    assert!(tx.users.get("u-1").unwrap().enabled);
    let lost = idp.offboard_settle(&mut tx, "worker-2", &job.id, BeforeCommit::Proceed, &review());
    assert_eq!(lost.ok(), Some(true));
}

#[test]
fn zones_do_not_move_a_departure() {
    let idp = provider();
    let mut tx = store(NOW);
    add_user(&mut tx, user("u-1", "alice"));
    let job = idp.offboard_schedule(&mut tx, &principal(), &moment(NOW + 3600), &None, &rules()).ok().unwrap();
    for zone in ["Europe/Berlin", "America/New_York"] {
        let input = RescheduleRequest { execute_at: ExecuteAt::Unix(NOW + 7200), timezone: s(zone) };
        let moved = idp.offboard_reschedule(&mut tx, &principal(), &job.id, &input, &None).ok().unwrap();
        assert_eq!((moved.execute_at, moved.next_attempt), (NOW + 7200, NOW + 7200));
        assert_eq!(moved.timezone, zone);
        assert_eq!(moved.attempts, job.attempts);
    }
}

#[test]
fn a_reset_keeps_the_second_factor() {
    let mut tx = store(NOW);
    let token = mailed(&mut tx, Purpose::Reset);
    let mut alice = riauth::table::Row::dup(tx.users.get("u-1").unwrap());
    alice.totp_secret = Some(s("totp"));
    alice.totp_last_step = Some(7);
    alice.recovery_codes = names(&["one", "two"]);
    alice.has_passkeys = true;
    add_user(&mut tx, alice);
    let password = Some(NewPassword { hash: s("new-hash"), matching: Names::new() });
    assert!(provider().account_complete(&mut tx, &token, Purpose::Reset, &password, &nobody()).is_ok());
    let after = tx.users.get("u-1").unwrap();
    assert_eq!((after.password_hash.as_str(), after.epoch), ("new-hash", 2));
    assert_eq!(after.totp_secret.as_deref(), Some("totp"));
    assert_eq!(after.totp_last_step, Some(7));
    assert_eq!(after.recovery_codes.len(), 2);
    assert!(after.has_passkeys && after.enabled && !after.admin);
}
