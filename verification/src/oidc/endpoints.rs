//! The protocol endpoints: discovery, request parameters, user information and pending requests.
use crate::engine::{ConfigModel, Core, drawn, extended, next_id};
use crate::error::{Error, Failure, agrees_with, copy_error, fails, opt_failure};
use crate::exchange::{TOKEN_EXCHANGE, chain_check};
use crate::headers::{Header, HeaderModel, all_values, header_values, opt_texts};
use crate::issuer::issuer_of;
use crate::jose::{ClientAuthMethod, JWT_GRANT};
use crate::json::{Json, JsonModel, Member, a_member_that_is_set_is_found, lemma_members_of, lookup, member, members_of, text, text_array, texts_array, with_member};
use crate::model::{AuthenticationTransaction, AuthenticationTransactionModel, Client, ClientModel, Device, Grant, GrantModel, Identity, IdentityModel, Session, SessionModel, User, UserModel};
use crate::names::Names;
use crate::oidc::{Authorization, AuthorizationModel, DEVICE_GRANT, Standing, StandingModel, TokenRequest, TokenRequestModel, active_client, client_failure, get_client, hash_of_request, invalid_client, prompts};
use crate::oidc::authorize::{authorization_check, login_too_old, needs_reauthentication, validate_authorization};
use crate::oidc::device::{device_for, lookup_device};
use crate::outside::{base64_bytes, base64_decode, digest, digest_of, form_pairs, pair_texts, parse_form, string_from_bytes};
use crate::radius::eap::CERTIFICATE_ACR;
use crate::resource::audience_of;
use crate::rules::{Rules, RulesModel};
use crate::store::{Tx, TxModel};
use crate::table::{Row, opt_view, views};
use crate::text::{concat, copy_list, first_at, lemma_first_at_range, lower, opt_is, opt_text, same, same_ignoring_case, split_once, text_list, texts, trim_end_char, trim_end_of};
use vstd::utf8::{decode_utf8, encode_utf8_decode_utf8, valid_utf8};
use vstd::prelude::*;
use vstd::string::*;

verus! {

/// A signing algorithm list.
pub open spec fn signing_names() -> Seq<Seq<char>> {
    seq!["RS256"@, "ES256"@, "EdDSA"@]
}

pub open spec fn encryption_names() -> Seq<Seq<char>> {
    seq!["A256GCM"@, "A256CBC-HS512"@]
}

pub open spec fn confidential_methods() -> Seq<Seq<char>> {
    seq!["client_secret_basic"@, "client_secret_post"@, "private_key_jwt"@]
}

/// The discovery document. `acr_values` and `modes` are what the assurance catalogue and the
/// response rules support.
pub open spec fn discovery_members(
    config: ConfigModel,
    acr_values: Seq<Seq<char>>,
    modes: Seq<Seq<char>>,
) -> Seq<(Seq<char>, JsonModel)> {
    let base = trim_end_char(config.issuer, '/');
    let acr = if config.client_certificates is Some {
        acr_values.push(CERTIFICATE_ACR@)
    } else {
        acr_values
    };
    seq![
        ("issuer"@, JsonModel::Text(config.issuer)),
        ("authorization_endpoint"@, JsonModel::Text(base + "/oauth/authorize"@)),
        ("token_endpoint"@, JsonModel::Text(base + "/oauth/token"@)),
        ("device_authorization_endpoint"@, JsonModel::Text(base + "/oauth/device/code"@)),
        ("userinfo_endpoint"@, JsonModel::Text(base + "/oauth/userinfo"@)),
        ("jwks_uri"@, JsonModel::Text(base + "/oauth/jwks"@)),
        ("revocation_endpoint"@, JsonModel::Text(base + "/oauth/revoke"@)),
        ("end_session_endpoint"@, JsonModel::Text(base + "/oauth/logout"@)),
        ("frontchannel_logout_supported"@, JsonModel::Bool(true)),
        ("frontchannel_logout_session_supported"@, JsonModel::Bool(true)),
        ("check_session_iframe"@, JsonModel::Text(base + "/oauth/session/iframe"@)),
        ("backchannel_logout_supported"@, JsonModel::Bool(true)),
        ("backchannel_logout_session_supported"@, JsonModel::Bool(true)),
        ("introspection_endpoint"@, JsonModel::Text(base + "/oauth/introspect"@)),
        ("response_types_supported"@, texts_array(seq!["code"@])),
        ("response_modes_supported"@, texts_array(modes)),
        ("authorization_signing_alg_values_supported"@, texts_array(signing_names())),
        (
            "grant_types_supported"@,
            texts_array(
                seq![
                    "authorization_code"@,
                    "refresh_token"@,
                    "client_credentials"@,
                    DEVICE_GRANT@,
                    TOKEN_EXCHANGE@,
                    JWT_GRANT@,
                ],
            ),
        ),
        ("subject_types_supported"@, texts_array(seq!["public"@, "pairwise"@])),
        ("id_token_signing_alg_values_supported"@, texts_array(signing_names())),
        ("id_token_encryption_alg_values_supported"@, texts_array(seq!["RSA-OAEP-256"@])),
        ("id_token_encryption_enc_values_supported"@, texts_array(encryption_names())),
        ("userinfo_signing_alg_values_supported"@, texts_array(signing_names())),
        ("userinfo_encryption_alg_values_supported"@, texts_array(seq!["RSA-OAEP-256"@])),
        ("userinfo_encryption_enc_values_supported"@, texts_array(encryption_names())),
        ("authorization_encryption_alg_values_supported"@, texts_array(seq!["RSA-OAEP-256"@])),
        ("authorization_encryption_enc_values_supported"@, texts_array(encryption_names())),
        ("token_endpoint_auth_signing_alg_values_supported"@, texts_array(signing_names())),
        ("registration_endpoint"@, JsonModel::Text(base + "/oauth/register"@)),
        (
            "token_endpoint_auth_methods_supported"@,
            texts_array(confidential_methods().push("none"@)),
        ),
        (
            "revocation_endpoint_auth_methods_supported"@,
            texts_array(confidential_methods().push("none"@)),
        ),
        ("introspection_endpoint_auth_methods_supported"@, texts_array(confidential_methods())),
        ("code_challenge_methods_supported"@, texts_array(seq!["S256"@])),
        ("dpop_signing_alg_values_supported"@, texts_array(signing_names())),
        (
            "scopes_supported"@,
            texts_array(
                seq!["openid"@, "profile"@, "email"@, "groups"@, "offline_access"@],
            ),
        ),
        (
            "claims_supported"@,
            texts_array(
                seq![
                    "iss"@,
                    "sub"@,
                    "aud"@,
                    "exp"@,
                    "iat"@,
                    "auth_time"@,
                    "nonce"@,
                    "amr"@,
                    "at_hash"@,
                    "name"@,
                    "preferred_username"@,
                    "email"@,
                    "email_verified"@,
                    "groups"@,
                ],
            ),
        ),
        ("authorization_response_iss_parameter_supported"@, JsonModel::Bool(true)),
        ("claims_parameter_supported"@, JsonModel::Bool(true)),
        ("acr_values_supported"@, texts_array(acr)),
        ("request_parameter_supported"@, JsonModel::Bool(true)),
        ("request_object_signing_alg_values_supported"@, texts_array(signing_names())),
        ("pushed_authorization_request_endpoint"@, JsonModel::Text(base + "/oauth/par"@)),
        ("require_pushed_authorization_requests"@, JsonModel::Bool(false)),
        ("request_uri_parameter_supported"@, JsonModel::Bool(true)),
    ]
}

/// A list of fixed texts as JSON.
fn names_json(v: &Vec<&'static str>) -> (r: Json)
    ensures
        r@ == texts_array(v@.map_values(|s: &'static str| s@)),
{
    let list = text_list(v);
    text_array(&list)
}

fn one_name(s: &'static str) -> (r: Json)
    ensures
        r@ == texts_array(seq![s@]),
{
    let mut v: Vec<&'static str> = Vec::new();
    v.push(s);
    assert(v@.map_values(|s: &'static str| s@) =~= seq![s@]);
    names_json(&v)
}

fn signing_json() -> (r: Json)
    ensures
        r@ == texts_array(signing_names()),
{
    let mut v: Vec<&'static str> = Vec::new();
    v.push("RS256");
    v.push("ES256");
    v.push("EdDSA");
    assert(v@.map_values(|s: &'static str| s@) =~= signing_names());
    names_json(&v)
}

fn encryption_json() -> (r: Json)
    ensures
        r@ == texts_array(encryption_names()),
{
    let mut v: Vec<&'static str> = Vec::new();
    v.push("A256GCM");
    v.push("A256CBC-HS512");
    assert(v@.map_values(|s: &'static str| s@) =~= encryption_names());
    names_json(&v)
}

fn methods_json(public: bool) -> (r: Json)
    ensures
        r@ == texts_array(
            if public {
                confidential_methods().push("none"@)
            } else {
                confidential_methods()
            },
        ),
{
    let mut v: Vec<&'static str> = Vec::new();
    v.push("client_secret_basic");
    v.push("client_secret_post");
    v.push("private_key_jwt");
    assert(v@.map_values(|s: &'static str| s@) =~= confidential_methods());
    if public {
        v.push("none");
        assert(v@.map_values(|s: &'static str| s@) =~= confidential_methods().push("none"@));
    }
    names_json(&v)
}

fn endpoint(base: &str, path: &str) -> (r: Json)
    ensures
        r@ == JsonModel::Text(base@ + path@),
{
    let t = concat(base, path);
    text(t.as_str())
}

fn grants_json() -> (r: Json)
    ensures
        r@ == texts_array(
            seq![
                "authorization_code"@,
                "refresh_token"@,
                "client_credentials"@,
                DEVICE_GRANT@,
                TOKEN_EXCHANGE@,
                JWT_GRANT@,
            ],
        ),
{
    let mut v: Vec<&'static str> = Vec::new();
    v.push("authorization_code");
    v.push("refresh_token");
    v.push("client_credentials");
    v.push(DEVICE_GRANT);
    v.push(TOKEN_EXCHANGE);
    v.push(JWT_GRANT);
    assert(v@.map_values(|s: &'static str| s@) =~= seq![
        "authorization_code"@,
        "refresh_token"@,
        "client_credentials"@,
        DEVICE_GRANT@,
        TOKEN_EXCHANGE@,
        JWT_GRANT@,
    ]);
    names_json(&v)
}

fn scopes_json() -> (r: Json)
    ensures
        r@ == texts_array(seq!["openid"@, "profile"@, "email"@, "groups"@, "offline_access"@]),
{
    let mut v: Vec<&'static str> = Vec::new();
    v.push("openid");
    v.push("profile");
    v.push("email");
    v.push("groups");
    v.push("offline_access");
    assert(v@.map_values(|s: &'static str| s@) =~= seq![
        "openid"@,
        "profile"@,
        "email"@,
        "groups"@,
        "offline_access"@,
    ]);
    names_json(&v)
}

fn claims_json() -> (r: Json)
    ensures
        r@ == texts_array(
            seq![
                "iss"@,
                "sub"@,
                "aud"@,
                "exp"@,
                "iat"@,
                "auth_time"@,
                "nonce"@,
                "amr"@,
                "at_hash"@,
                "name"@,
                "preferred_username"@,
                "email"@,
                "email_verified"@,
                "groups"@,
            ],
        ),
{
    let mut v: Vec<&'static str> = Vec::new();
    v.push("iss");
    v.push("sub");
    v.push("aud");
    v.push("exp");
    v.push("iat");
    v.push("auth_time");
    v.push("nonce");
    v.push("amr");
    v.push("at_hash");
    v.push("name");
    v.push("preferred_username");
    v.push("email");
    v.push("email_verified");
    v.push("groups");
    assert(v@.map_values(|s: &'static str| s@) =~= seq![
        "iss"@,
        "sub"@,
        "aud"@,
        "exp"@,
        "iat"@,
        "auth_time"@,
        "nonce"@,
        "amr"@,
        "at_hash"@,
        "name"@,
        "preferred_username"@,
        "email"@,
        "email_verified"@,
        "groups"@,
    ]);
    names_json(&v)
}

fn subjects_json() -> (r: Json)
    ensures
        r@ == texts_array(seq!["public"@, "pairwise"@]),
{
    let mut v: Vec<&'static str> = Vec::new();
    v.push("public");
    v.push("pairwise");
    assert(v@.map_values(|s: &'static str| s@) =~= seq!["public"@, "pairwise"@]);
    names_json(&v)
}

impl Core {
    /// The discovery document of the shared issuer.
    #[verifier::rlimit(60)]
    pub fn discovery(&self, acr_values: &Vec<String>, modes: &Vec<String>) -> (r: Json)
        ensures
            r@ == JsonModel::Object(
                discovery_members(self@.config, texts(acr_values@), texts(modes@)),
            ),
    {
        let trimmed_issuer = trim_end_of(self.config.issuer.as_str(), '/');
        let base = trimmed_issuer.as_str();
        let mut acr = copy_list(acr_values);
        if self.config.client_certificates.is_some() {
            let ghost was = texts(acr@);
            acr.push(CERTIFICATE_ACR.to_owned());
            assert(texts(acr@) =~= was.push(CERTIFICATE_ACR@));
        }
        let mut m: Vec<Member> = Vec::new();
        m.push(member("issuer", text(self.config.issuer.as_str())));
        m.push(member("authorization_endpoint", endpoint(base, "/oauth/authorize")));
        m.push(member("token_endpoint", endpoint(base, "/oauth/token")));
        m.push(member("device_authorization_endpoint", endpoint(base, "/oauth/device/code")));
        m.push(member("userinfo_endpoint", endpoint(base, "/oauth/userinfo")));
        m.push(member("jwks_uri", endpoint(base, "/oauth/jwks")));
        m.push(member("revocation_endpoint", endpoint(base, "/oauth/revoke")));
        m.push(member("end_session_endpoint", endpoint(base, "/oauth/logout")));
        m.push(member("frontchannel_logout_supported", Json::Bool(true)));
        m.push(member("frontchannel_logout_session_supported", Json::Bool(true)));
        m.push(member("check_session_iframe", endpoint(base, "/oauth/session/iframe")));
        m.push(member("backchannel_logout_supported", Json::Bool(true)));
        m.push(member("backchannel_logout_session_supported", Json::Bool(true)));
        m.push(member("introspection_endpoint", endpoint(base, "/oauth/introspect")));
        m.push(member("response_types_supported", one_name("code")));
        m.push(member("response_modes_supported", text_array(modes)));
        m.push(member("authorization_signing_alg_values_supported", signing_json()));
        m.push(member("grant_types_supported", grants_json()));
        m.push(member("subject_types_supported", subjects_json()));
        m.push(member("id_token_signing_alg_values_supported", signing_json()));
        m.push(member("id_token_encryption_alg_values_supported", one_name("RSA-OAEP-256")));
        m.push(member("id_token_encryption_enc_values_supported", encryption_json()));
        m.push(member("userinfo_signing_alg_values_supported", signing_json()));
        m.push(member("userinfo_encryption_alg_values_supported", one_name("RSA-OAEP-256")));
        m.push(member("userinfo_encryption_enc_values_supported", encryption_json()));
        m.push(member("authorization_encryption_alg_values_supported", one_name("RSA-OAEP-256")));
        m.push(member("authorization_encryption_enc_values_supported", encryption_json()));
        m.push(member("token_endpoint_auth_signing_alg_values_supported", signing_json()));
        m.push(member("registration_endpoint", endpoint(base, "/oauth/register")));
        m.push(member("token_endpoint_auth_methods_supported", methods_json(true)));
        m.push(member("revocation_endpoint_auth_methods_supported", methods_json(true)));
        m.push(member("introspection_endpoint_auth_methods_supported", methods_json(false)));
        m.push(member("code_challenge_methods_supported", one_name("S256")));
        m.push(member("dpop_signing_alg_values_supported", signing_json()));
        m.push(member("scopes_supported", scopes_json()));
        m.push(member("claims_supported", claims_json()));
        m.push(member("authorization_response_iss_parameter_supported", Json::Bool(true)));
        m.push(member("claims_parameter_supported", Json::Bool(true)));
        m.push(member("acr_values_supported", text_array(&acr)));
        m.push(member("request_parameter_supported", Json::Bool(true)));
        m.push(member("request_object_signing_alg_values_supported", signing_json()));
        m.push(member("pushed_authorization_request_endpoint", endpoint(base, "/oauth/par")));
        m.push(member("require_pushed_authorization_requests", Json::Bool(false)));
        m.push(member("request_uri_parameter_supported", Json::Bool(true)));
        proof {
            lemma_members_of(m);
            assert(members_of(m@) =~= discovery_members(
                self@.config,
                texts(acr_values@),
                texts(modes@),
            ));
        }
        Json::Object(m)
    }

    /// The discovery document of one client.
    pub fn provider_discovery(
        &self,
        tx: &Tx,
        cid: &str,
        acr_values: &Vec<String>,
        modes: &Vec<String>,
    ) -> (r: Result<Json, Error>)
        ensures
            agrees_with(
                r,
                if !tx@.clients.dom().contains(cid@) || !tx@.clients[cid@].enabled {
                    Err(Failure::Missing("Provider not found"@))
                } else {
                    Ok(
                        provider_document(
                            discovery_members(self@.config, texts(acr_values@), texts(modes@)),
                            self@.config.issuer,
                            tx@.clients[cid@],
                        ),
                    )
                },
            ),
    {
        let c = match tx.clients.get(cid) {
            None => return Err(Error::missing("Provider not found")),
            Some(c) => c,
        };
        if !c.enabled {
            return Err(Error::missing("Provider not found"));
        }
        let mut d = self.discovery(acr_values, modes);
        let issuer = crate::issuer::for_client(self.config.issuer.as_str(), c);
        d.set("issuer", text(issuer));
        if c.settings.pairwise_sector.is_some() {
            d.set("subject_types_supported", one_name("pairwise"));
        } else {
            d.set("subject_types_supported", one_name("public"));
        }
        d.set(
            "require_pushed_authorization_requests",
            Json::Bool(c.settings.require_pushed_authorization_requests),
        );
        Ok(d)
    }
}

/// The discovery document of one client: its issuer, its subjects and how it takes requests.
pub open spec fn provider_document(
    base: Seq<(Seq<char>, JsonModel)>,
    shared: Seq<char>,
    c: ClientModel,
) -> JsonModel {
    JsonModel::Object(
        with_member(
            with_member(
                with_member(base, "issuer"@, JsonModel::Text(issuer_of(shared, c))),
                "subject_types_supported"@,
                texts_array(
                    if c.settings.pairwise_sector is Some {
                        seq!["pairwise"@]
                    } else {
                        seq!["public"@]
                    },
                ),
            ),
            "require_pushed_authorization_requests"@,
            JsonModel::Bool(c.settings.require_pushed_authorization_requests),
        ),
    )
}

/// A form-encoded field of a Basic credential, decoded.
pub open spec fn decoded_field(s: Seq<char>) -> Seq<char> {
    let p = form_pairs("v="@ + s);
    if p.len() > 0 {
        p[0].1
    } else {
        ""@
    }
}

fn decode_field(s: &str) -> (r: String)
    ensures
        r@ == decoded_field(s@),
{
    let t = concat("v=", s);
    let pairs = parse_form(t.as_str());
    assert(pair_texts(pairs@).len() == pairs.len());
    if pairs.len() > 0 {
        assert(pair_texts(pairs@)[0] == (pairs[0].0@, pairs[0].1@));
        pairs[0].1.clone()
    } else {
        "".to_owned()
    }
}

/// The client and the secret of a Basic header.
pub open spec fn basic_credentials(header: Seq<char>) -> Option<(Seq<char>, Seq<char>)> {
    let at = first_at(header, ' ');
    if at >= header.len() || lower(header.take(at)) != lower("basic"@) {
        None
    } else {
        match base64_bytes(header.skip(at + 1)) {
            None => None,
            Some(b) => if !valid_utf8(b) {
                None
            } else {
                let v = decode_utf8(b);
                let colon = first_at(v, ':');
                if colon >= v.len() {
                    None
                } else {
                    Some((decoded_field(v.take(colon)), decoded_field(v.skip(colon + 1))))
                }
            },
        }
    }
}

fn read_basic(header: &str) -> (r: Option<(String, String)>)
    ensures
        match basic_credentials(header@) {
            Some(p) => r matches Some(x) && x.0@ == p.0 && x.1@ == p.1,
            None => r is None,
        },
{
    let (scheme, encoded) = match split_once(header, ' ') {
        None => return None,
        Some(p) => p,
    };
    if !same_ignoring_case(scheme.as_str(), "basic") {
        return None;
    }
    let bytes = match base64_decode(encoded.as_str()) {
        None => return None,
        Some(b) => b,
    };
    let value = match string_from_bytes(bytes) {
        None => return None,
        Some(v) => v,
    };
    proof {
        encode_utf8_decode_utf8(value@);
    }
    match split_once(value.as_str(), ':') {
        None => None,
        Some((cid, secret)) => Some((decode_field(cid.as_str()), decode_field(secret.as_str()))),
    }
}

/// A request with the credentials of its headers. They cannot be mixed with others.
pub open spec fn with_credentials(h: Seq<HeaderModel>, q: TokenRequestModel) -> Result<
    TokenRequestModel,
    Failure,
> {
    let auth = header_values(h, "authorization"@);
    let dpop = header_values(h, "dpop"@);
    if auth.len() > 1 || dpop.len() > 1 {
        Err(Failure::Bad("Duplicate authentication header"@))
    } else if dpop.len() == 1 && dpop[0] is None {
        Err(Failure::Bad("Invalid DPoP header"@))
    } else {
        let proved = TokenRequestModel {
            dpop_proof: if dpop.len() == 1 {
                dpop[0]
            } else {
                None
            },
            ..q
        };
        if auth.len() == 0 {
            Ok(proved)
        } else if auth[0] is None || q.client_secret is Some || q.client_assertion is Some
            || q.client_assertion_type is Some {
            Err(client_failure())
        } else {
            match basic_credentials(auth[0]->0) {
                None => Err(client_failure()),
                Some((cid, secret)) => if q.client_id is Some && q.client_id->0 != cid {
                    Err(client_failure())
                } else {
                    Ok(
                        TokenRequestModel {
                            client_auth_method: Some(ClientAuthMethod::ClientSecretBasic),
                            client_id: Some(cid),
                            client_secret: Some(secret),
                            ..proved
                        },
                    )
                },
            }
        }
    }
}

pub fn client_credentials_from_headers(headers: &Vec<Header>, request: TokenRequest) -> (r: Result<
    TokenRequest,
    Error,
>)
    ensures
        agrees_with(r, with_credentials(views(headers@), request@)),
{
    let auth = all_values(headers, "authorization");
    let dpop = all_values(headers, "dpop");
    if auth.len() > 1 || dpop.len() > 1 {
        return Err(Error::bad("Duplicate authentication header"));
    }
    let mut q = request;
    q.dpop_proof = None;
    if dpop.len() == 1 {
        assert(opt_texts(dpop@)[0] == opt_text(dpop[0]));
        match &dpop[0] {
            None => return Err(Error::bad("Invalid DPoP header")),
            Some(p) => {
                q.dpop_proof = Some(p.clone());
            },
        }
    }
    if auth.len() == 0 {
        return Ok(q);
    }
    assert(opt_texts(auth@)[0] == opt_text(auth[0]));
    let header = match &auth[0] {
        None => return Err(invalid_client()),
        Some(h) => h,
    };
    if q.client_secret.is_some() || q.client_assertion.is_some() || q.client_assertion_type.is_some() {
        return Err(invalid_client());
    }
    match read_basic(header.as_str()) {
        None => Err(invalid_client()),
        Some((cid, secret)) => {
            if q.client_id.is_some() && !opt_is(&q.client_id, cid.as_str()) {
                return Err(invalid_client());
            }
            q.client_auth_method = Some(ClientAuthMethod::ClientSecretBasic);
            q.client_id = Some(cid);
            q.client_secret = Some(secret);
            Ok(q)
        },
    }
}

/// No parameter is given twice.
pub open spec fn distinct_pairs(p: Seq<(Seq<char>, Seq<char>)>) -> bool {
    forall|i: int, j: int| 0 <= i < j < p.len() ==> (#[trigger] p[i]).0 != (#[trigger] p[j]).0
}

pub open spec fn valued() -> spec_fn((Seq<char>, Seq<char>)) -> bool {
    |p: (Seq<char>, Seq<char>)| p.1.len() > 0
}

/// The parameters of a form: each at most once, and empty ones as if they were not given.
pub open spec fn form_parameters(p: Seq<(Seq<char>, Seq<char>)>) -> Result<
    Seq<(Seq<char>, Seq<char>)>,
    Failure,
> {
    if !distinct_pairs(p) {
        Err(Failure::Bad("Duplicate OAuth parameters are not allowed"@))
    } else {
        Ok(p.filter(valued()))
    }
}

#[verifier::loop_isolation(false)]
pub fn oauth_parameters(pairs: &Vec<(String, String)>) -> (r: Result<Vec<(String, String)>, Error>)
    ensures
        match form_parameters(pair_texts(pairs@)) {
            Ok(p) => r is Ok && pair_texts(r->Ok_0@) == p,
            Err(f) => fails(r, f),
        },
{
    let ghost all = pair_texts(pairs@);
    let ghost f = valued();
    let mut seen = Names::new();
    let mut out: Vec<(String, String)> = Vec::new();
    let mut i: usize = 0;
    assert(all.take(0).filter(f) =~= Seq::<(Seq<char>, Seq<char>)>::empty());
    assert(pair_texts(out@) =~= Seq::<(Seq<char>, Seq<char>)>::empty());
    while i < pairs.len()
        invariant
            i <= pairs.len(),
            pair_texts(out@) == all.take(i as int).filter(f),
            forall|k: int| 0 <= k < i ==> seen@.contains((#[trigger] all[k]).0),
            forall|s: Seq<char>| #[trigger]
                seen@.contains(s) ==> exists|k: int| 0 <= k < i && (#[trigger] all[k]).0 == s,
            forall|a: int, b: int|
                0 <= a < b < i ==> (#[trigger] all[a]).0 != (#[trigger] all[b]).0,
        decreases pairs.len() - i,
    {
        proof {
            assert(all[i as int] == (pairs[i as int].0@, pairs[i as int].1@));
            assert(all.take(i + 1) =~= all.take(i as int).push(all[i as int]));
            all.take(i as int).lemma_filter_push(all[i as int], f);
        }
        if !seen.insert(pairs[i].0.as_str()) {
            proof {
                let k = choose|k: int| 0 <= k < i && (#[trigger] all[k]).0 == all[i as int].0;
                assert(all[k].0 == all[i as int].0);
            }
            return Err(Error::bad("Duplicate OAuth parameters are not allowed"));
        }
        if !pairs[i].1.as_str().is_empty() {
            let ghost was = pair_texts(out@);
            let x = (pairs[i].0.clone(), pairs[i].1.clone());
            out.push(x);
            assert(pair_texts(out@) =~= was.push(all[i as int]));
        }
        i = i + 1;
    }
    assert(all.take(i as int) =~= all);
    Ok(out)
}

pub open spec fn userinfo_url(issuer: Seq<char>) -> Seq<char> {
    trim_end_char(issuer, '/') + "/oauth/userinfo"@
}

/// Whether a token gives user information. `possession` is why the proof that it may be used is
/// refused, if it is.
pub open spec fn userinfo_check(
    t: TxModel,
    issuer: Seq<char>,
    token: Seq<char>,
    possession: Option<Failure>,
    standing: StandingModel,
) -> Result<(GrantModel, ClientModel), Failure> {
    let key = digest_of(token);
    if !t.access.dom().contains(key) {
        Err(Failure::Unauthorized)
    } else {
        let g = t.access[key];
        match chain_check(t, key, g, 0, standing) {
            Err(f) => Err(f),
            Ok(_) => if g.resource is Some && g.resource->0 != userinfo_url(issuer) {
                Err(Failure::Unauthorized)
            } else if possession is Some {
                Err(possession->0)
            } else if !g.scopes.contains("openid"@) {
                Err(Failure::Reply(403, "insufficient_scope"@, "openid scope required"@))
            } else if g.identity is None {
                Err(Failure::Unauthorized)
            } else {
                Ok((g, t.clients[g.client_id]))
            },
        }
    }
}

/// The claims of an answer: the mapped ones, with the envelope of a signed or encrypted answer.
pub open spec fn userinfo_claims(
    claims: JsonModel,
    shared: Seq<char>,
    g: GrantModel,
    c: ClientModel,
    now: u64,
) -> JsonModel {
    if c.settings.userinfo_signed_response || c.settings.userinfo_encryption is Some {
        match claims {
            JsonModel::Object(m) => JsonModel::Object(
                with_member(
                    with_member(
                        with_member(
                            with_member(m, "iss"@, JsonModel::Text(issuer_of(shared, c))),
                            "aud"@,
                            JsonModel::Text(c.id),
                        ),
                        "iat"@,
                        JsonModel::Unsigned(now),
                    ),
                    "exp"@,
                    JsonModel::Unsigned(g.expires_at),
                ),
            ),
            other => other,
        }
    } else {
        claims
    }
}

/// User information that was decided on.
pub struct UserinfoGrant {
    pub grant: Grant,
    pub client: Client,
    /// The answer is signed, and perhaps encrypted.
    pub signed: bool,
}

/// What a [`UserinfoGrant`] holds.
pub struct UserinfoGrantModel {
    pub grant: GrantModel,
    pub client: ClientModel,
    pub signed: bool,
}

impl View for UserinfoGrant {
    type V = UserinfoGrantModel;

    open spec fn view(&self) -> UserinfoGrantModel {
        UserinfoGrantModel {
            grant: self.grant@,
            client: self.client@,
            signed: self.signed,
        }
    }
}

impl Row for UserinfoGrant {
    fn dup(&self) -> (r: Self) {
        UserinfoGrant {
            grant: self.grant.dup(),
            client: self.client.dup(),
            signed: self.signed,
        }
    }
}

impl Core {
    /// Whether a token gives user information, and whose.
    pub fn userinfo_with_proof(
        &self,
        tx: &Tx,
        token: &str,
        possession: &Option<Error>,
        standing: &Standing,
    ) -> (r: Result<UserinfoGrant, Error>)
        ensures
            agrees_with(
                r,
                match userinfo_check(
                    tx@,
                    self@.config.issuer,
                    token@,
                    opt_failure(*possession),
                    standing@,
                ) {
                    Err(f) => Err(f),
                    Ok((g, c)) => Ok(
                        UserinfoGrantModel {
                            grant: g,
                            client: c,
                            signed: c.settings.userinfo_signed_response
                                || c.settings.userinfo_encryption is Some,
                        },
                    ),
                },
            ),
    {
        let key = digest(token);
        let grant = match tx.access.get(key.as_str()) {
            None => return Err(Error::Unauthorized),
            Some(g) => g.dup(),
        };
        let client = match self.validate_grant(tx, key.as_str(), &grant, standing) {
            Err(e) => return Err(e),
            Ok(c) => c,
        };
        if let Some(resource) = &grant.resource {
            let base = trim_end_of(self.config.issuer.as_str(), '/');
            let url = concat(base.as_str(), "/oauth/userinfo");
            if !same(resource.as_str(), url.as_str()) {
                return Err(Error::Unauthorized);
            }
        }
        if let Some(e) = possession {
            return Err(copy_error(e));
        }
        if !grant.scopes.contains("openid") {
            return Err(Error::reply(403, "insufficient_scope", "openid scope required"));
        }
        if grant.identity.is_none() {
            return Err(Error::Unauthorized);
        }
        let signed = client.settings.userinfo_signed_response
            || client.settings.userinfo_encryption.is_some();
        Ok(UserinfoGrant { grant, client, signed })
    }

    /// The claims that are answered, given those that were mapped for the user.
    pub fn userinfo_answer(&self, granted: &UserinfoGrant, claims: &Json, now: u64) -> (r: Json)
        requires
            granted@.signed == (granted@.client.settings.userinfo_signed_response
                || granted@.client.settings.userinfo_encryption is Some),
        ensures
            r@ == userinfo_claims(
                claims@,
                self@.config.issuer,
                granted@.grant,
                granted@.client,
                now,
            ),
    {
        let mut c = claims.dup();
        if granted.signed {
            let issuer = crate::issuer::for_client(self.config.issuer.as_str(), &granted.client);
            c.set("iss", text(issuer));
            c.set("aud", text(granted.client.id.as_str()));
            c.set("iat", Json::Unsigned(now));
            c.set("exp", Json::Unsigned(granted.grant.expires_at));
        }
        c
    }
}

/// Whom a token is for at a reverse proxy that asks for `audience`.
pub open spec fn proxy_auth_check(
    t: TxModel,
    token: Seq<char>,
    audience: Seq<char>,
    possession: Option<Failure>,
    standing: StandingModel,
) -> Result<IdentityModel, Failure> {
    let key = digest_of(token);
    if !t.access.dom().contains(key) {
        Err(Failure::Unauthorized)
    } else {
        let g = t.access[key];
        match chain_check(t, key, g, 0, standing) {
            Err(f) => Err(f),
            Ok(_) => if possession is Some {
                Err(possession->0)
            } else if audience_of(g) != audience || g.identity is None {
                Err(Failure::Forbidden)
            } else {
                Ok(g.identity->0)
            },
        }
    }
}

impl Core {
    /// Whom a token is for at a reverse proxy.
    pub fn proxy_auth_with_proof(
        &self,
        tx: &Tx,
        token: &str,
        audience: &str,
        possession: &Option<Error>,
        standing: &Standing,
    ) -> (r: Result<Identity, Error>)
        ensures
            agrees_with(
                r,
                proxy_auth_check(
                    tx@,
                    token@,
                    audience@,
                    opt_failure(*possession),
                    standing@,
                ),
            ),
    {
        let key = digest(token);
        let grant = match tx.access.get(key.as_str()) {
            None => return Err(Error::Unauthorized),
            Some(g) => g.dup(),
        };
        if let Err(e) = self.validate_grant(tx, key.as_str(), &grant, standing) {
            return Err(e);
        }
        if let Some(e) = possession {
            return Err(copy_error(e));
        }
        if !same(crate::resource::audience(&grant), audience) {
            return Err(Error::Forbidden);
        }
        match &grant.identity {
            None => Err(Error::Forbidden),
            Some(i) => Ok(i.dup()),
        }
    }
}

/// A request that waits for its user.
pub struct PreparedAuthorization {
    pub client: Client,
    pub scopes: Names,
    pub transaction_id: String,
    pub reauthentication_required: bool,
    pub select_account: bool,
    pub username: Option<String>,
}

/// What a [`PreparedAuthorization`] holds.
pub struct PreparedAuthorizationModel {
    pub client: ClientModel,
    pub scopes: Set<Seq<char>>,
    pub transaction_id: Seq<char>,
    pub reauthentication_required: bool,
    pub select_account: bool,
    pub username: Option<Seq<char>>,
}

impl View for PreparedAuthorization {
    type V = PreparedAuthorizationModel;

    open spec fn view(&self) -> PreparedAuthorizationModel {
        PreparedAuthorizationModel {
            client: self.client@,
            scopes: self.scopes@,
            transaction_id: self.transaction_id@,
            reauthentication_required: self.reauthentication_required,
            select_account: self.select_account,
            username: crate::text::opt_text(self.username),
        }
    }
}

impl Row for PreparedAuthorization {
    fn dup(&self) -> (r: Self) {
        PreparedAuthorization {
            client: self.client.dup(),
            scopes: self.scopes.copy(),
            transaction_id: self.transaction_id.clone(),
            reauthentication_required: self.reauthentication_required,
            select_account: self.select_account,
            username: crate::text::copy_opt(&self.username),
        }
    }
}

/// Why a request cannot wait for its user, or the state that it waits in. `session` is the session
/// of whoever asks, `step_up` whether the assurance rules ask for a stronger login.
pub open spec fn authorization_prepared(
    t: TxModel,
    r: AuthorizationModel,
    rules: RulesModel,
    bound: Option<Set<Seq<char>>>,
    session: Option<(UserModel, SessionModel)>,
    step_up: bool,
) -> (TxModel, Result<PreparedAuthorizationModel, Failure>) {
    match authorization_check(t, r, rules, bound) {
        Err(f) => (t, Err(f)),
        Ok((client, scopes)) => if prompts(r).contains("none"@) {
            (
                t,
                Err(
                    Failure::Oauth(
                        "login_required"@,
                        "Terminal authentication and consent are required"@,
                    ),
                ),
            )
        } else {
            let transaction = "ri_auth_"@ + next_id(t);
            let select = prompts(r).contains("select_account"@);
            (
                TxModel {
                    authentication: t.authentication.insert(
                        digest_of(transaction),
                        AuthenticationTransactionModel {
                            request_hash: hash_of_request(r),
                            user_id: match session {
                                Some((u, _)) => if select {
                                    None
                                } else {
                                    Some(u.id)
                                },
                                None => None,
                            },
                            authenticated_session: None,
                            expires_at: extended(t.now, 600),
                            source_stage: None,
                        },
                    ),
                    ..drawn(t)
                },
                Ok(
                    PreparedAuthorizationModel {
                        client,
                        scopes,
                        transaction_id: transaction,
                        reauthentication_required: match session {
                            Some((_, s)) => login_too_old(r, s.identity, step_up, t.now),
                            None => true,
                        },
                        select_account: select,
                        username: match session {
                            Some((u, _)) => Some(u.username),
                            None => None,
                        },
                    },
                ),
            )
        },
    }
}

impl Core {
    /// What an authorization asks for, for somebody who is not signed in.
    pub fn authorization_details(
        &self,
        tx: &mut Tx,
        request: &Authorization,
        rules: &Rules,
        bound: &Option<Names>,
        step_up: bool,
    ) -> (r: Result<PreparedAuthorization, Error>)
        ensures
            ({
                let out = authorization_prepared(
                    old(tx)@,
                    request@,
                    rules@,
                    opt_view(*bound),
                    None,
                    step_up,
                );
                final(tx)@ == out.0 && agrees_with(r, out.1)
            }),
    {
        self.authorization_prepare(tx, request, rules, bound, &None, step_up)
    }

    /// Lets a request wait for its user. Requests that an upstream source authenticates wait there.
    pub fn authorization_prepare(
        &self,
        tx: &mut Tx,
        request: &Authorization,
        rules: &Rules,
        bound: &Option<Names>,
        session: &Option<(User, Session)>,
        step_up: bool,
    ) -> (r: Result<PreparedAuthorization, Error>)
        ensures
            ({
                let out = authorization_prepared(
                    old(tx)@,
                    request@,
                    rules@,
                    opt_view(*bound),
                    match *session {
                        Some(p) => Some((p.0@, p.1@)),
                        None => None,
                    },
                    step_up,
                );
                final(tx)@ == out.0 && agrees_with(r, out.1)
            }),
    {
        let (client, scopes) = match validate_authorization(tx, request, rules, bound) {
            Err(e) => return Err(e),
            Ok(p) => p,
        };
        if request.has_prompt("none") {
            return Err(
                Error::oauth(
                    "login_required",
                    "Terminal authentication and consent are required",
                ),
            );
        }
        let select = request.has_prompt("select_account");
        let (user_id, username, fresh) = match session {
            Some((u, s)) => (
                if select {
                    None
                } else {
                    Some(u.id.clone())
                },
                Some(u.username.clone()),
                needs_reauthentication(request, &s.identity, step_up, tx.now),
            ),
            None => (None, None, true),
        };
        let transaction = tx.random_token("ri_auth_");
        let key = digest(transaction.as_str());
        tx.authentication.put(
            key.as_str(),
            AuthenticationTransaction {
                request_hash: request.request_hash(),
                user_id,
                authenticated_session: None,
                expires_at: tx.now.saturating_add(600),
                source_stage: None,
            },
        );
        Ok(
            PreparedAuthorization {
                client,
                scopes,
                transaction_id: transaction,
                reauthentication_required: fresh,
                select_account: select,
                username,
            },
        )
    }

    /// What whoever decides on a device is shown.
    pub fn device_details(&self, tx: &Tx, user_code_hash: &str) -> (r: Result<(Device, Client), Error>)
        ensures
            match device_for(tx@, user_code_hash@) {
                Err(f) => fails(r, f),
                Ok(p) => if active_client(tx@, p.1.client_id) {
                    r is Ok && (r->Ok_0).0@ == p.1 && (r->Ok_0).1@ == tx@.clients[p.1.client_id]
                } else {
                    fails(r, client_failure())
                },
            },
    {
        let (_, device) = match lookup_device(tx, user_code_hash) {
            Err(e) => return Err(e),
            Ok(p) => p,
        };
        match get_client(tx, device.client_id.as_str()) {
            Err(e) => Err(e),
            Ok(c) => Ok((device, c)),
        }
    }
}

/// Credentials in a header are never mixed with others, and those that are taken are the header's.
pub proof fn header_credentials_stand_alone(h: Seq<HeaderModel>, q: TokenRequestModel)
    requires
        with_credentials(h, q) is Ok,
        header_values(h, "authorization"@).len() > 0,
    ensures
        q.client_secret is None && q.client_assertion is None,
        (with_credentials(h, q)->Ok_0).client_auth_method == Some(
            ClientAuthMethod::ClientSecretBasic,
        ),
        q.client_id is Some ==> (with_credentials(h, q)->Ok_0).client_id == q.client_id,
{
}

/// User information is given for a token that stands, is for this endpoint or for nothing in particular,
/// has the openid scope and belongs to a user; and for no other.
pub proof fn user_information_needs_a_login_token(
    t: TxModel,
    issuer: Seq<char>,
    token: Seq<char>,
    standing: StandingModel,
)
    requires
        t.access.dom().contains(digest_of(token)),
        t.access[digest_of(token)].resource is None,
    ensures
        userinfo_check(t, issuer, token, None, standing) is Ok <==> {
            let g = t.access[digest_of(token)];
            &&& chain_check(t, digest_of(token), g, 0, standing) is Ok
            &&& g.scopes.contains("openid"@)
            &&& g.identity is Some
        },
        userinfo_check(t, issuer, token, None, standing) matches Ok(p) ==> p.0 == t.access[digest_of(
            token,
        )] && p.1 == t.clients[p.0.client_id],
{
}

/// Signed user information is addressed to the client, from its issuer, issued now, ending with the
/// token; every other claim stays.
pub proof fn signed_user_information_is_addressed(
    m: Seq<(Seq<char>, JsonModel)>,
    shared: Seq<char>,
    g: GrantModel,
    c: ClientModel,
    now: u64,
    other: Seq<char>,
)
    requires
        c.settings.userinfo_signed_response,
        other != "iss"@ && other != "aud"@ && other != "iat"@ && other != "exp"@,
    ensures
        ({
            let out = userinfo_claims(JsonModel::Object(m), shared, g, c, now);
            &&& out.member("iss"@) == Some(
                JsonModel::Text(
                    if c.settings.issuer is Some {
                        c.settings.issuer->0
                    } else {
                        shared
                    },
                ),
            )
            &&& out.member("aud"@) == Some(JsonModel::Text(c.id))
            &&& out.member("iat"@) == Some(JsonModel::Unsigned(now))
            &&& out.member("exp"@) == Some(JsonModel::Unsigned(g.expires_at))
            &&& out.member(other) == lookup(m, other)
        }),
{
    reveal_strlit("iss");
    reveal_strlit("aud");
    reveal_strlit("iat");
    reveal_strlit("exp");
    assert("iss"@[0] == 'i' && "iss"@[1] == 's' && "aud"@[0] == 'a' && "iat"@[0] == 'i' && "iat"@[1]
        == 'a' && "exp"@[0] == 'e');
    let v1 = JsonModel::Text(issuer_of(shared, c));
    let v2 = JsonModel::Text(c.id);
    let v3 = JsonModel::Unsigned(now);
    let v4 = JsonModel::Unsigned(g.expires_at);
    let m1 = with_member(m, "iss"@, v1);
    let m2 = with_member(m1, "aud"@, v2);
    let m3 = with_member(m2, "iat"@, v3);
    a_member_that_is_set_is_found(m, "iss"@, v1, other);
    a_member_that_is_set_is_found(m1, "aud"@, v2, other);
    a_member_that_is_set_is_found(m1, "aud"@, v2, "iss"@);
    a_member_that_is_set_is_found(m2, "iat"@, v3, other);
    a_member_that_is_set_is_found(m2, "iat"@, v3, "iss"@);
    a_member_that_is_set_is_found(m2, "iat"@, v3, "aud"@);
    a_member_that_is_set_is_found(m3, "exp"@, v4, other);
    a_member_that_is_set_is_found(m3, "exp"@, v4, "iss"@);
    a_member_that_is_set_is_found(m3, "exp"@, v4, "aud"@);
    a_member_that_is_set_is_found(m3, "exp"@, v4, "iat"@);
}

/// A token opens a proxied application only for the audience that it is for, and gives the identity of
/// its user.
pub proof fn proxied_tokens_are_for_their_audience(
    t: TxModel,
    token: Seq<char>,
    audience: Seq<char>,
    standing: StandingModel,
)
    requires
        t.access.dom().contains(digest_of(token)),
    ensures
        ({
            let g = t.access[digest_of(token)];
            proxy_auth_check(t, token, audience, None, standing) is Ok <==> {
                &&& chain_check(t, digest_of(token), g, 0, standing) is Ok
                &&& audience == if g.resource is Some {
                    g.resource->0
                } else {
                    g.client_id
                }
                &&& g.identity is Some
            }
        }),
        proxy_auth_check(t, token, audience, None, standing) matches Ok(i) ==> t.access[digest_of(
            token,
        )].identity == Some(i),
{
}

/// Credentials in a header are taken as they were written: the id and the secret on both sides of the
/// first colon, each decoded as a form value.
pub proof fn header_credentials_are_read(
    h: Seq<HeaderModel>,
    q: TokenRequestModel,
    text: Seq<char>,
    b: Seq<u8>,
)
    requires
        header_values(h, "authorization"@) == seq![Some("Basic "@ + text)],
        header_values(h, "dpop"@).len() == 0,
        q.client_secret is None && q.client_assertion is None && q.client_assertion_type is None,
        q.client_id is None,
        base64_bytes(text) == Some(b),
        valid_utf8(b),
        decode_utf8(b).contains(':'),
    ensures
        ({
            let v = decode_utf8(b);
            let colon = first_at(v, ':');
            let out = with_credentials(h, q)->Ok_0;
            &&& with_credentials(h, q) is Ok
            &&& out.client_id == Some(decoded_field(v.take(colon)))
            &&& out.client_secret == Some(decoded_field(v.skip(colon + 1)))
            &&& out.client_auth_method == Some(ClientAuthMethod::ClientSecretBasic)
            &&& out.grant_type == q.grant_type && out.code == q.code && out.scope == q.scope
            &&& out.dpop_proof is None
        }),
{
    reveal_strlit("Basic ");
    reveal_strlit("basic");
    let s = "Basic "@ + text;
    assert("Basic "@.len() == 6);
    assert(s[0] == 'B' && s[1] == 'a' && s[2] == 's' && s[3] == 'i' && s[4] == 'c' && s[5] == ' ');
    lemma_first_at_is(s, ' ', 5);
    assert(s.take(5) =~= seq!['B', 'a', 's', 'i', 'c']);
    assert(lower(s.take(5)) =~= lower("basic"@)) by {
        assert("basic"@ =~= seq!['b', 'a', 's', 'i', 'c']);
    }
    assert(s.skip(6) =~= text);
    let v = decode_utf8(b);
    lemma_first_at_range(v, ':');
    lemma_first_at_found(v, ':');
}

proof fn lemma_first_at_is(s: Seq<char>, c: char, n: int)
    requires
        0 <= n < s.len(),
        s[n] == c,
        forall|i: int| 0 <= i < n ==> #[trigger] s[i] != c,
    ensures
        first_at(s, c) == n,
    decreases n,
{
    if n > 0 {
        assert(s[0] != c);
        let r = s.skip(1);
        assert(r[n - 1] == s[n]);
        assert forall|i: int| 0 <= i < n - 1 implies #[trigger] r[i] != c by {
            assert(r[i] == s[i + 1]);
        }
        lemma_first_at_is(r, c, n - 1);
    }
}

proof fn lemma_first_at_found(s: Seq<char>, c: char)
    requires
        s.contains(c),
    ensures
        first_at(s, c) < s.len(),
    decreases s.len(),
{
    let k = s.index_of(c);
    if s[0] != c {
        let r = s.skip(1);
        assert(r[k - 1] == c);
        lemma_first_at_found(r, c);
    }
}

/// The document of the provider tells its issuer and, below it, where its endpoints are.
pub proof fn discovery_tells_the_endpoints(
    config: ConfigModel,
    acr_values: Seq<Seq<char>>,
    modes: Seq<Seq<char>>,
)
    ensures
        ({
            let m = discovery_members(config, acr_values, modes);
            let base = trim_end_char(config.issuer, '/');
            &&& m.contains(("issuer"@, JsonModel::Text(config.issuer)))
            &&& m.contains(("authorization_endpoint"@, JsonModel::Text(base + "/oauth/authorize"@)))
            &&& m.contains(("token_endpoint"@, JsonModel::Text(base + "/oauth/token"@)))
            &&& m.contains(("userinfo_endpoint"@, JsonModel::Text(base + "/oauth/userinfo"@)))
            &&& m.contains(("jwks_uri"@, JsonModel::Text(base + "/oauth/jwks"@)))
            &&& m.contains(("revocation_endpoint"@, JsonModel::Text(base + "/oauth/revoke"@)))
            &&& m.contains(("introspection_endpoint"@, JsonModel::Text(base + "/oauth/introspect"@)))
            &&& m.contains(("end_session_endpoint"@, JsonModel::Text(base + "/oauth/logout"@)))
            &&& m.contains(
                ("device_authorization_endpoint"@, JsonModel::Text(base + "/oauth/device/code"@)),
            )
            &&& m.contains(("registration_endpoint"@, JsonModel::Text(base + "/oauth/register"@)))
            &&& m.contains(
                ("response_types_supported"@, JsonModel::Array(seq![JsonModel::Text("code"@)])),
            )
            &&& m.contains(
                (
                    "code_challenge_methods_supported"@,
                    JsonModel::Array(seq![JsonModel::Text("S256"@)]),
                ),
            )
        }),
{
    let m = discovery_members(config, acr_values, modes);
    assert(m[0].0 == "issuer"@ && m[1].0 == "authorization_endpoint"@ && m[2].0 == "token_endpoint"@);
    assert(m[3].0 == "device_authorization_endpoint"@ && m[4].0 == "userinfo_endpoint"@);
    assert(m[5].0 == "jwks_uri"@ && m[6].0 == "revocation_endpoint"@ && m[7].0
        == "end_session_endpoint"@);
    assert(m[13].0 == "introspection_endpoint"@ && m[14].0 == "response_types_supported"@);
    assert(texts_array(seq!["code"@])->Array_0 =~= seq![JsonModel::Text("code"@)]);
    assert(texts_array(seq!["S256"@])->Array_0 =~= seq![JsonModel::Text("S256"@)]);
    assert(m[28].0 == "registration_endpoint"@);
    assert(m[32].0 == "code_challenge_methods_supported"@);
}

/// Who prepares an authorization gets a transaction for this request alone: ten minutes, for the user who
/// is signed in unless another account is to be chosen, and it asks for a login where nobody is signed
/// in.
pub proof fn prepared_authorizations_are_for_one_request(
    t: TxModel,
    r: AuthorizationModel,
    rules: RulesModel,
    bound: Option<Set<Seq<char>>>,
    session: Option<(UserModel, SessionModel)>,
    step_up: bool,
)
    requires
        authorization_prepared(t, r, rules, bound, session, step_up).1 is Ok,
    ensures
        ({
            let out = authorization_prepared(t, r, rules, bound, session, step_up);
            let p = out.1->Ok_0;
            let a = out.0.authentication[digest_of(p.transaction_id)];
            let select = prompts(r).contains("select_account"@);
            &&& out.0.authentication.dom().contains(digest_of(p.transaction_id))
            &&& a.request_hash == hash_of_request(r)
            &&& a.authenticated_session is None
            &&& t.now + 600 <= u64::MAX ==> a.expires_at == t.now + 600
            &&& a.user_id == if session is Some && !select {
                Some((session->0).0.id)
            } else {
                None
            }
            &&& p.client == t.clients[r.client_id]
            &&& p.scopes == bound->0
            &&& p.select_account == select
            &&& session is None ==> p.reauthentication_required && p.username is None
            &&& session is Some ==> p.username == Some((session->0).0.username)
            &&& session is Some && r.max_age is Some && r.max_age->0 > 0 && t.now - (
            session->0).1.identity.auth_time > r.max_age->0 ==> p.reauthentication_required
        }),
{
}

/// Parameters are taken once each; those without a value count as not given.
pub proof fn parameters_are_given_once(p: Seq<(Seq<char>, Seq<char>)>, x: (Seq<char>, Seq<char>))
    ensures
        form_parameters(p) is Ok <==> forall|i: int, j: int|
            0 <= i < j < p.len() ==> (#[trigger] p[i]).0 != (#[trigger] p[j]).0,
        form_parameters(p) matches Ok(v) ==> (v.contains(x) <==> p.contains(x) && x.1.len() > 0),
{
    if form_parameters(p) is Ok {
        let f = valued();
        let v = p.filter(f);
        if v.contains(x) {
            p.lemma_filter_contains_rev(f, x);
            let i = v.index_of(x);
            p.lemma_filter_pred(f, i);
        }
        if p.contains(x) && x.1.len() > 0 {
            p.lemma_filter_contains(f, p.index_of(x));
        }
    }
}

/// What a client discovers names its own issuer, how its subjects are told apart, and whether it must
/// push its requests.
pub proof fn clients_discover_their_own_issuer(
    base: Seq<(Seq<char>, JsonModel)>,
    shared: Seq<char>,
    c: ClientModel,
)
    ensures
        ({
            let d = provider_document(base, shared, c);
            &&& d.member("issuer"@) == Some(JsonModel::Text(issuer_of(shared, c)))
            &&& d.member("require_pushed_authorization_requests"@) == Some(
                JsonModel::Bool(c.settings.require_pushed_authorization_requests),
            )
            &&& d.member("subject_types_supported"@) == Some(
                texts_array(
                    seq![
                        if c.settings.pairwise_sector is Some {
                            "pairwise"@
                        } else {
                            "public"@
                        },
                    ],
                ),
            )
            &&& forall|k: Seq<char>|
                k != "issuer"@ && k != "subject_types_supported"@ && k
                    != "require_pushed_authorization_requests"@ ==> (#[trigger] d.member(k)) == lookup(base, k)
        }),
{
    reveal_strlit("issuer");
    reveal_strlit("subject_types_supported");
    reveal_strlit("require_pushed_authorization_requests");
    assert("issuer"@[0] == 'i' && "subject_types_supported"@[0] == 's'
        && "require_pushed_authorization_requests"@[0] == 'r');
    let i = JsonModel::Text(issuer_of(shared, c));
    let s = texts_array(
        if c.settings.pairwise_sector is Some {
            seq!["pairwise"@]
        } else {
            seq!["public"@]
        },
    );
    let p = JsonModel::Bool(c.settings.require_pushed_authorization_requests);
    let a = with_member(base, "issuer"@, i);
    let b = with_member(a, "subject_types_supported"@, s);
    a_member_that_is_set_is_found(base, "issuer"@, i, "issuer"@);
    a_member_that_is_set_is_found(a, "subject_types_supported"@, s, "issuer"@);
    a_member_that_is_set_is_found(b, "require_pushed_authorization_requests"@, p, "issuer"@);
    a_member_that_is_set_is_found(
        b,
        "require_pushed_authorization_requests"@,
        p,
        "subject_types_supported"@,
    );
    assert forall|k: Seq<char>|
        k != "issuer"@ && k != "subject_types_supported"@ && k
            != "require_pushed_authorization_requests"@ implies (#[trigger] provider_document(
        base,
        shared,
        c,
    ).member(k)) == lookup(base, k) by {
        a_member_that_is_set_is_found(base, "issuer"@, i, k);
        a_member_that_is_set_is_found(a, "subject_types_supported"@, s, k);
        a_member_that_is_set_is_found(b, "require_pushed_authorization_requests"@, p, k);
    }
}

/// A request carries the one proof of a key that its header has; without credentials in a header it is
/// otherwise as it was. Two headers of a kind are refused.
pub proof fn key_proofs_are_read_from_their_header(h: Seq<HeaderModel>, q: TokenRequestModel, text: Seq<char>)
    ensures
        header_values(h, "authorization"@).len() == 0 && header_values(h, "dpop"@) == seq![Some(text)]
            ==> with_credentials(h, q) == Ok::<TokenRequestModel, Failure>(
            (TokenRequestModel { dpop_proof: Some(text), ..q }),
        ),
        header_values(h, "authorization"@).len() == 0 && header_values(h, "dpop"@).len() == 0 ==> with_credentials(
            h,
            q,
        ) == Ok::<TokenRequestModel, Failure>((TokenRequestModel { dpop_proof: None, ..q })),
        header_values(h, "authorization"@).len() > 1 || header_values(h, "dpop"@).len() > 1 ==> with_credentials(
            h,
            q,
        ) is Err,
{
}

} // verus!
