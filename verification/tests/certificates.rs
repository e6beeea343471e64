//! Client certificates: trust, identity and enrollment.
use riauth::engine::Config;
use riauth::engine::Core;
use riauth::engine::Principal;
use riauth::error::Error;
use riauth::json::Json;
use riauth::keyring::Keys;
use riauth::keyring::SigningKey;
use riauth::model::Client;
use riauth::model::ProviderSettings;
use riauth::model::User;
use riauth::mtls::BindInput;
use riauth::mtls::ClientCertAuth;
use riauth::mtls::ClientCertMode;
use riauth::mtls::Leaf;
use riauth::names::Names;
use riauth::radius::enrollment::CertificateInput;
use riauth::radius::enrollment::Judgement;
use riauth::radius::material::TrustFiles;
use riauth::rules::Rules;
use riauth::store::Tx;
use riauth::table::Table;
use riauth::trust::ChainFault;
use riauth::trust::Complaint;

fn s(t: &str) -> String {
    t.to_owned()
}

fn names(list: &[&str]) -> Names {
    let mut out = Names::new();
    for item in list {
        out.insert(item);
    }
    out
}

fn rules() -> Rules {
    Rules {
        bad_names: Names::new(),
        server_urls: Names::new(),
        acr_values: Names::new(),
        response_modes: Names::new(),
        refused: Names::new(),
    }
}

fn store(now: u64) -> Tx {
    let active = SigningKey { kid: s("k1"), algorithm: s("EdDSA") };
    Tx::new(now, "seed", Keys { active, retired: Vec::new() })
}

fn provider() -> Core {
    Core {
        config: Config {
            issuer: s("https://id.test"),
            access_token_ttl: 600,
            refresh_token_ttl: 86_400,
            session_ttl: 3600,
            password_history: 3,
            signers: Table::new(),
            mail: None,
            fresh_seconds: 900,
            terminal_warn_seconds: 300,
            pam_approvers: Table::new(),
            trusted_proxies: names(&["10.0.0.1"]),
            client_certificates: None,
            native_tls: true,
        },
    }
}

fn user(id: &str, username: &str) -> User {
    User {
        has_passkeys: false,
        totp_settings: Json::Null,
        pairwise_seed: s("seed"),
        id: s(id),
        username: s(username),
        email: None,
        display_name: s(username),
        password_hash: s("hash"),
        enabled: true,
        admin: false,
        epoch: 1,
        totp_secret: None,
        totp_pending: None,
        totp_last_step: None,
        created_at: 0,
        attributes: Table::new(),
        email_verified: false,
        subjects: Table::new(),
        recovery_codes: Names::new(),
    }
}

fn add_user(tx: &mut Tx, user: User) {
    let name = user.username.clone();
    let id = user.id.clone();
    tx.usernames.put(&name, id.clone());
    tx.users.put(&id, user);
}

fn client(id: &str) -> Client {
    let mut settings = ProviderSettings::plain();
    settings.allowed_grants = names(&[
        "authorization_code",
        "refresh_token",
        "client_credentials",
        "urn:ietf:params:oauth:grant-type:device_code",
    ]);
    Client {
        id: s(id),
        name: s(id),
        secret_hash: None,
        redirect_uris: vec![s("https://app.test/callback")],
        scopes: names(&["openid", "email"]),
        allowed_groups: Names::new(),
        require_mfa: false,
        enabled: true,
        service: false,
        settings,
    }
}

fn principal() -> Principal {
    Principal { id: s("admin"), agent: false }
}

fn message<T>(r: &Result<T, Error>) -> String {
    match r {
        Ok(_) => s("ok"),
        Err(Error::Bad(m)) => format!("bad: {m}"),
        Err(Error::Oauth(code, m)) => format!("{code}: {m}"),
        Err(Error::Unauthorized) => s("unauthorized"),
        Err(Error::Forbidden) => s("forbidden"),
        Err(Error::Missing(m)) => format!("missing: {m}"),
        Err(Error::Conflict(m)) => format!("conflict: {m}"),
        Err(Error::Internal(m)) => format!("internal: {m}"),
        Err(Error::Reply(status, code, m)) => format!("{status} {code}: {m}"),
        Err(Error::Name(m)) => format!("name: {m}"),
        Err(Error::Refused(m)) => format!("refused: {m}"),
    }
}

const ROOT: &str = "-----BEGIN CERTIFICATE-----\n\
MIIBWjCCAQGgAwIBAgIBATAKBggqhkjOPQQDAjAUMRIwEAYDVQQDDAlUZXN0IFJv\n\
b3QwIBcNMjYwMTAxMDAwMDAwWhgPMjA5OTAxMDEwMDAwMDBaMBQxEjAQBgNVBAMM\n\
CVRlc3QgUm9vdDBZMBMGByqGSM49AgEGCCqGSM49AwEHA0IABFTZPyhZYBy+b7Kz\n\
2YNP4uSSU9WDUNb2FwJxI8RC6AW0HagpR7CNuD7k2zxQjNRqG1Djej5BbIYCE7XL\n\
qj+MwMKjQjBAMA8GA1UdEwEB/wQFMAMBAf8wDgYDVR0PAQH/BAQDAgGGMB0GA1Ud\n\
DgQWBBQqXy5Ocx4vtPeMaHs2gI4+ydnPiTAKBggqhkjOPQQDAgNHADBEAiBO8hA5\n\
cw5/LGhJADGNcMRCujk8aNOm6Z1r+HDJYAuh4gIgFdTWu29FlwX3S90X7R0ox1kD\n\
wHDM0YA/QbdZBPNIfTw=\n\
-----END CERTIFICATE-----\n\
";
const OTHER_ROOT: &str = "-----BEGIN CERTIFICATE-----\n\
MIIBLTCB1KADAgECAgEBMAoGCCqGSM49BAMCMBUxEzARBgNVBAMMCk90aGVyIFJv\n\
b3QwIBcNMjYwMTAxMDAwMDAwWhgPMjA5OTAxMDEwMDAwMDBaMBUxEzARBgNVBAMM\n\
Ck90aGVyIFJvb3QwWTATBgcqhkjOPQIBBggqhkjOPQMBBwNCAAS7EE2WxaKn/yJn\n\
W0Csah8r3U5yRioVN//C9FKREI6YHhyF47Icu+77LZIXvBKhQyAI71/IMffEgVJH\n\
6QV8KTAdoxMwETAPBgNVHRMBAf8EBTADAQH/MAoGCCqGSM49BAMCA0gAMEUCIBGa\n\
lNSJg7xKnTzsTmTXqQbB8/V14majgg6reUuh09h4AiEA6nOkAdnJCno658w4GiIG\n\
HKCFK7AEFVN5cfmJ4CE4SC4=\n\
-----END CERTIFICATE-----\n\
";
const LEAF: &str = "-----BEGIN CERTIFICATE-----\n\
MIIBoTCCAUegAwIBAgIBBzAKBggqhkjOPQQDAjAUMRIwEAYDVQQDDAlUZXN0IFJv\n\
b3QwIBcNMjYwMTAxMDAwMDAwWhgPMjA5ODAxMDEwMDAwMDBaMA8xDTALBgNVBAMM\n\
BGxlYWYwWTATBgcqhkjOPQIBBggqhkjOPQMBBwNCAAS/yh5rz19GivGAgPQ6wDPr\n\
qE8SHNwsxfJoJPwVl+8B2DSj1Z/AOv7R5yd/40EcsXNt/+nM0n7BWZcgfjsx8HzI\n\
o4GMMIGJMAwGA1UdEwEB/wQCMAAwEwYDVR0lBAwwCgYIKwYBBQUHAwIwQwYDVR0R\n\
BDwwOoESYWxpY2VAZXhhbXBsZS50ZXN0hhF1cm46ZXhhbXBsZTphbGljZYIRaG9z\n\
dC5leGFtcGxlLnRlc3QwHwYDVR0jBBgwFoAUKl8uTnMeL7T3jGh7NoCOPsnZz4kw\n\
CgYIKoZIzj0EAwIDSAAwRQIgVpj05L9sqgL9zMWUQzJk82kkoZaOEbZ6cFcrgQva\n\
wuECIQDTAK9r4bFAYxYXbM8STJDEyICNFrlzYnate8AogixJmA==\n\
-----END CERTIFICATE-----\n\
";
const REVOKED: &str = "-----BEGIN CERTIFICATE-----\n\
MIIBoTCCAUegAwIBAgIBCDAKBggqhkjOPQQDAjAUMRIwEAYDVQQDDAlUZXN0IFJv\n\
b3QwIBcNMjYwMTAxMDAwMDAwWhgPMjA5ODAxMDEwMDAwMDBaMA8xDTALBgNVBAMM\n\
BGxlYWYwWTATBgcqhkjOPQIBBggqhkjOPQMBBwNCAAQgIqse9t6c7J4AtWet3tJq\n\
5iJNcQJ1UPbR0Ux3V8tO5YX+DrzY0DHe9W7QDpzYC4MnEySAfy0fErlYCmOdLYn8\n\
o4GMMIGJMAwGA1UdEwEB/wQCMAAwEwYDVR0lBAwwCgYIKwYBBQUHAwIwQwYDVR0R\n\
BDwwOoESYWxpY2VAZXhhbXBsZS50ZXN0hhF1cm46ZXhhbXBsZTphbGljZYIRaG9z\n\
dC5leGFtcGxlLnRlc3QwHwYDVR0jBBgwFoAUKl8uTnMeL7T3jGh7NoCOPsnZz4kw\n\
CgYIKoZIzj0EAwIDSAAwRQIgV+iXr13U6iSNYygp2wtYn9bzQsZek4M4Yj37FnRl\n\
LH0CIQCI1gHsZ6mTGe6qdAqb8fYUl1WnmztG1ILjnDCY6YZA5g==\n\
-----END CERTIFICATE-----\n\
";
const EXPIRED: &str = "-----BEGIN CERTIFICATE-----\n\
MIIBnzCCAUWgAwIBAgIBCTAKBggqhkjOPQQDAjAUMRIwEAYDVQQDDAlUZXN0IFJv\n\
b3QwHhcNMjYwMTAxMDAwMDAwWhcNMjYwNjAxMDAwMDAwWjAPMQ0wCwYDVQQDDARs\n\
ZWFmMFkwEwYHKoZIzj0CAQYIKoZIzj0DAQcDQgAElkNaNLE+WJlOBFBkRTeD2TDd\n\
nXJ9jWZ4oAvP4rj3iuNKV84mqXyUc4COGPOX9aiACo4Oy2HBBqpaQs2qCz3IC6OB\n\
jDCBiTAMBgNVHRMBAf8EAjAAMBMGA1UdJQQMMAoGCCsGAQUFBwMCMEMGA1UdEQQ8\n\
MDqBEmFsaWNlQGV4YW1wbGUudGVzdIYRdXJuOmV4YW1wbGU6YWxpY2WCEWhvc3Qu\n\
ZXhhbXBsZS50ZXN0MB8GA1UdIwQYMBaAFCpfLk5zHi+094xoezaAjj7J2c+JMAoG\n\
CCqGSM49BAMCA0gAMEUCIHDxR7LxEzmnlwYHZKqfop+oRVqWMhPWOJXUIebH0oSx\n\
AiEA1WQDOnOHzP4aIgnnTW6Z9Kw6x+myD/5BXOEpns0/fZw=\n\
-----END CERTIFICATE-----\n\
";
const LISTS: &str = "-----BEGIN X509 CRL-----\n\
MIHkMIGMAgEBMAoGCCqGSM49BAMCMBQxEjAQBgNVBAMMCVRlc3QgUm9vdBcNMjYw\n\
MTAyMDAwMDAwWhgPMjA5NzAxMDEwMDAwMDBaMBQwEgIBCBcNMjYwMTAyMDAwMDAw\n\
WqAvMC0wHwYDVR0jBBgwFoAUKl8uTnMeL7T3jGh7NoCOPsnZz4kwCgYDVR0UBAMC\n\
AQEwCgYIKoZIzj0EAwIDRwAwRAIgMeeKDz+2fhxEh4/jV8pQFH0aVUC4BU4pDOUh\n\
aESZjHQCIE0oFovBR7V0Td7H6vODJlQvenxUmg9K1xaFcz6OeQWO\n\
-----END X509 CRL-----\n\
";
const STALE_LISTS: &str = "-----BEGIN X509 CRL-----\n\
MIHkMIGKAgEBMAoGCCqGSM49BAMCMBQxEjAQBgNVBAMMCVRlc3QgUm9vdBcNMjYw\n\
MTAyMDAwMDAwWhcNMjYwMjAxMDAwMDAwWjAUMBICAQgXDTI2MDEwMjAwMDAwMFqg\n\
LzAtMB8GA1UdIwQYMBaAFCpfLk5zHi+094xoezaAjj7J2c+JMAoGA1UdFAQDAgEB\n\
MAoGCCqGSM49BAMCA0kAMEYCIQDfHTJDNn9U536Ro/Wo2pJUMiLVHcIa9siwRlIA\n\
JXS0sgIhAIuGNdhtkT3gA6j7+I/UTTKP7ztjdPKnt3aXZElMuLn1\n\
-----END X509 CRL-----\n\
";
const FINGERPRINT: &str = "YE5KEtTP6Nff--nsO3UlEtjN7cUTuzha_MC_THMgmw4";
const NOT_AFTER: u64 = 4039372800;
const NOW: u64 = 1_800_000_000;

fn bytes(t: &str) -> Vec<u8> {
    t.as_bytes().to_vec()
}

fn verify(anchors: &str, lists: Option<&str>, chain: &str) -> Result<Leaf, Error> {
    let chain = riauth::mtls::parse_pem(chain).ok().unwrap();
    riauth::trust::verify_chain(&bytes(anchors), &lists.map(bytes), &chain, NOW)
}

#[test]
fn a_trusted_chain_gives_its_identity() {
    let leaf = verify(ROOT, Some(LISTS), LEAF).ok().unwrap();
    assert_eq!(leaf.fingerprint, FINGERPRINT);
    assert_eq!(leaf.emails, vec![s("alice@example.test")]);
    assert_eq!(leaf.uris, vec![s("urn:example:alice")]);
    assert_eq!(leaf.not_after, NOT_AFTER);
    assert!(verify(ROOT, None, LEAF).is_ok());
}

#[test]
fn every_fault_of_a_chain_is_told() {
    assert_eq!(
        message(&verify(ROOT, Some(LISTS), REVOKED)),
        "401 invalid_credentials: Client certificate is revoked",
    );
    assert_eq!(
        message(&verify(ROOT, None, EXPIRED)),
        "401 invalid_credentials: Client certificate is expired or not yet valid",
    );
    assert_eq!(
        message(&verify(OTHER_ROOT, None, LEAF)),
        "401 invalid_credentials: Client certificate is not trusted",
    );
    assert_eq!(
        message(&verify(ROOT, Some(STALE_LISTS), LEAF)),
        "503 temporarily_unavailable: Client certificate revocation data is stale or not yet valid",
    );
    assert_eq!(
        message(&verify(ROOT, Some("nothing"), LEAF)),
        "503 temporarily_unavailable: Client certificate revocation data must contain 1..=16 PEM CRLs",
    );
    assert_eq!(
        message(&verify("nothing", None, LEAF)),
        "503 temporarily_unavailable: Client certificate trust anchors must contain 1..=16 PEM certificates",
    );
    assert_eq!(
        message(&verify("", None, LEAF)),
        "503 temporarily_unavailable: Client certificate trust material is invalid",
    );
    assert_eq!(
        message(&riauth::trust::read_crls(&Vec::new(), NOW)),
        "503 temporarily_unavailable: Client certificate trust material is invalid",
    );
    assert_eq!(riauth::trust::read_fault(Complaint::ExpiredRevocationListContext), ChainFault::NoRevocationStatus);
    assert_eq!(riauth::trust::read_fault(Complaint::NotValidYet), ChainFault::OutsideValidity);
    assert_eq!(riauth::trust::read_fault(Complaint::Other), ChainFault::Untrusted);
    let told = |fault: ChainFault| message::<()>(&Err(riauth::trust::classify_verification(fault)));
    assert_eq!(
        told(ChainFault::NoRevocationStatus),
        "503 temporarily_unavailable: Client certificate revocation data is unavailable",
    );
}

#[test]
fn authorities_are_no_clients() {
    let root = riauth::mtls::parse_pem(ROOT).ok().unwrap();
    assert_eq!(
        message(&riauth::mtls::leaf_identity(&root[0], NOW)),
        "401 invalid_credentials: Client certificate is not trusted",
    );
    let leaf = riauth::mtls::parse_pem(LEAF).ok().unwrap();
    assert_eq!(riauth::mtls::fingerprint(&leaf[0]), FINGERPRINT);
    assert_eq!(
        message(&riauth::mtls::leaf_identity(&leaf[0], NOT_AFTER)),
        "401 invalid_credentials: Client certificate is expired or not yet valid",
    );
    assert!(riauth::mtls::leaf_identity(b"nothing", NOW).is_err());
}

#[test]
fn forwarded_certificates_are_decoded() {
    assert_eq!(riauth::mtls::percent_decode("a%20b").ok().unwrap(), "a b");
    assert_eq!(
        message(&riauth::mtls::percent_decode("a%2")),
        "bad: Invalid forwarded certificate encoding",
    );
    assert_eq!(
        message(&riauth::mtls::percent_decode("%zz")),
        "bad: Invalid forwarded certificate encoding",
    );
    let encoded = LEAF.replace('\n', "%0A").replace(' ', "%20");
    assert_eq!(riauth::mtls::parse_forwarded(&encoded).ok().unwrap().len(), 1);
    assert_eq!(
        message(&riauth::mtls::parse_forwarded("  ")),
        "401 certificate_required: Client certificate required",
    );
    let profile = ClientCertAuth {
        trust_anchors_file: s("roots.pem"),
        mode: ClientCertMode::Optional,
        crl_file: None,
        forwarded_header: Some(s("x-client-cert")),
    };
    let both = vec![encoded.clone(), encoded.clone()];
    assert_eq!(
        message(&riauth::mtls::presented_chain(&profile, true, &both, &Vec::new())),
        "bad: Duplicate forwarded client certificate",
    );
    assert!(riauth::mtls::presented_chain(&profile, true, &vec![encoded], &Vec::new()).is_ok());
    assert_eq!(
        message(&riauth::mtls::presented_chain(&profile, false, &Vec::new(), &Vec::new())),
        "401 certificate_required: Client certificate required",
    );
}

#[test]
fn header_names_are_checked() {
    assert!(riauth::mtls::validate_header_name("X-Client-Cert").is_ok());
    assert_eq!(
        message(&riauth::mtls::validate_header_name("-x")),
        "bad: forwarded_header must be one HTTP header token",
    );
    assert_eq!(
        message(&riauth::mtls::validate_header_name("Cookie")),
        "bad: forwarded_header cannot replace an existing request header",
    );
}

#[test]
fn a_bound_certificate_logs_in_until_it_is_revoked() {
    let mut idp = provider();
    idp.config.client_certificates = Some(ClientCertAuth {
        trust_anchors_file: s("roots.pem"),
        mode: ClientCertMode::Optional,
        crl_file: None,
        forwarded_header: None,
    });
    let mut tx = store(NOW);
    add_user(&mut tx, user("u-1", "alice"));
    let input = BindInput {
        username: s("alice"),
        certificate_pem: Some(s(LEAF)),
        san_uri: None,
        san_email: None,
    };
    let roots = Some(ROOT.as_bytes().to_vec());
    let bound = idp.client_certificate_bind(&mut tx, &principal(), &input, &roots, &None, &rules()).ok().unwrap();
    assert_eq!(bound.fingerprint.as_deref(), Some(FINGERPRINT));
    let shown = riauth::mtls::parse_pem(LEAF).ok().unwrap();
    let log_in = |tx: &mut Tx, anchors: &Option<Vec<u8>>| {
        idp.login_with_client_certificate(tx, anchors, &None, "192.0.2.1", &Vec::new(), &shown, &None)
    };
    assert_eq!(
        message(&log_in(&mut tx, &Some(bytes(OTHER_ROOT)))),
        "401 invalid_credentials: Client certificate is not trusted",
    );
    assert_eq!(tx.sessions.len(), 0);
    let login = log_in(&mut tx, &roots).ok().unwrap();
    assert_eq!(login.expires_at, NOW + 3600);
    assert_eq!(login.user.username, "alice");
    assert_eq!(tx.sessions.len(), 1);
    let sid = tx.sessions.key_at(0).clone();
    let who = &tx.sessions.get(&sid).unwrap().identity;
    assert!(riauth::mtls::validate_identity(&tx, who).is_ok());
    assert_eq!(idp.client_certificate_list(&tx, &names(&["alice"])).len(), 1);
    assert_eq!(idp.client_certificate_list(&tx, &names(&["bob"])).len(), 0);
    assert!(idp.client_certificate_revoke(&mut tx, &principal(), &bound.id).is_ok());
    assert!(tx.sessions.get(&sid).unwrap().revoked);
    assert_eq!(
        message(&log_in(&mut tx, &roots)),
        "401 invalid_credentials: Client certificate is not enrolled",
    );
}

#[test]
fn a_listener_has_its_own_authority() {
    let profile = riauth::radius::eap::Config {
        certificate_file: s("server.pem"),
        key_file: s("server.key"),
        client_ca_file: s("ca.pem"),
        client_crl_file: s("crl.pem"),
        ocsp_response_file: None,
        tls12: false,
        fragment_size: 1024,
    };
    let files = |ca: &str, lists: &str| TrustFiles {
        certificates: bytes(ROOT),
        client_ca: bytes(ca),
        client_crl: bytes(lists),
    };
    let a = profile.material("{}", &files(ROOT, LISTS), NOW).ok().unwrap();
    let b = profile.material("{\"a\":1}", &files(ROOT, LISTS), NOW).ok().unwrap();
    assert_eq!(a.roots.len(), 1);
    assert_ne!(a.fingerprint, b.fingerprint);
    assert_eq!(
        message(&profile.material("{}", &files(ROOT, STALE_LISTS), NOW)),
        "bad: EAP CRL is stale, not yet valid or has no nextUpdate",
    );
    assert_eq!(
        message(&profile.material("{}", &files("", LISTS), NOW)),
        "bad: EAP certificate file needs 1..16 certificates",
    );
    assert_eq!(
        message(&profile.material("{}", &files(ROOT, ""), NOW)),
        "bad: Invalid EAP trust material size",
    );
    assert_eq!(
        message(&profile.material("{}", &files(ROOT, "x"), NOW)),
        "bad: EAP requires 1..16 current PEM CRLs covering the client chain",
    );
    assert!(profile.chain_trust("{}", &files(ROOT, LISTS), LEAF, NOW).is_none());
    let refused = profile.chain_trust("{}", &files(ROOT, LISTS), REVOKED, NOW).unwrap();
    assert_eq!(
        message::<()>(&Err(refused)),
        "bad: EAP client certificate is not valid under this listener's private CA",
    );
    assert!(profile.chain_trust("{}", &files(OTHER_ROOT, LISTS), LEAF, NOW).is_some());
}

#[test]
fn an_enrolled_certificate_authenticates_until_it_falls() {
    let idp = provider();
    let mut tx = store(NOW);
    add_user(&mut tx, user("u-1", "alice"));
    let input = CertificateInput { username: s("alice"), listener: s("wifi"), certificate_chain_pem: s(LEAF) };
    assert_eq!(
        message(&idp.radius_certificate_bind(&mut tx, &principal(), &input, false, &None, &rules())),
        "bad: RADIUS listener has no EAP-TLS trust profile",
    );
    let bound = idp.radius_certificate_bind(&mut tx, &principal(), &input, true, &None, &rules()).ok().unwrap();
    assert_eq!(bound.expires_at, NOT_AFTER);
    let der = riauth::mtls::parse_pem(LEAF).ok().unwrap();
    let fine = Judgement { authorization: None, step_up: false, claims: None };
    let mut app = client("nas");
    app.scopes = names(&["openid", "radius"]);
    app.settings.radius = Some(riauth::radius::Settings { eap_tls: true, reply: Vec::new() });
    tx.clients.put("nas", app);
    let identity = idp
        .eap_identity(&mut tx, "nas", true, "wifi", "profile-1", &der[0], &fine, &rules())
        .ok()
        .unwrap();
    assert_eq!(identity.user_id, "u-1");
    let mut profiles: Table<String> = Table::new();
    profiles.put("wifi", s("profile-1"));
    assert!(riauth::radius::enrollment::validate_identity(&tx, &identity, &profiles).is_ok());
    assert!(idp.radius_certificate_revoke(&mut tx, &principal(), &bound.id, true).is_ok());
    assert!(riauth::radius::enrollment::validate_identity(&tx, &identity, &profiles).is_err());
}
