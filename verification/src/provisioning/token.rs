//! Bearer tokens for provisioning targets.
use crate::engine::extended;
use crate::error::{Error, Failure, agrees, agrees_with, fails};
use crate::jose::{decode_payload, token_payload};
use crate::json::{Json, JsonModel, item_models, json_model, lemma_items};
use crate::mtls::or_empty;
use crate::outside::{digest, digest_of, pair_texts};
use crate::provisioning::{Oauth, OauthGrant, OauthModel, Target, TargetModel, grant_name, scim_target_check};
use crate::provisioning::delivery::{remote_error, remote_failure};
use crate::rules::{Rules, RulesModel};
use crate::table::{Row, Table, opt_view, position};
use crate::text::{all_graphic, among, byte_count, byte_len, concat, concat3, decimal, decimal_text, has_prefix, is_graphic, lower, opt_str, opt_text, parts, same, same_ignoring_case, split, split_words, starts_with, texts, trim, trimmed, words};
use vstd::prelude::*;
use vstd::string::*;

verus! {

/// The secrets of an OAuth client, as its private files hold them.
pub struct OauthSecrets {
    pub client_secret: Option<String>,
    pub refresh_token: Option<String>,
    pub fingerprint: String,
}

/// What a [`OauthSecrets`] holds.
pub struct OauthSecretsModel {
    pub client_secret: Option<Seq<char>>,
    pub refresh_token: Option<Seq<char>>,
    pub fingerprint: Seq<char>,
}

impl View for OauthSecrets {
    type V = OauthSecretsModel;

    open spec fn view(&self) -> OauthSecretsModel {
        OauthSecretsModel {
            client_secret: crate::text::opt_text(self.client_secret),
            refresh_token: crate::text::opt_text(self.refresh_token),
            fingerprint: self.fingerprint@,
        }
    }
}

impl Row for OauthSecrets {
    fn dup(&self) -> (r: Self) {
        OauthSecrets {
            client_secret: crate::text::copy_opt(&self.client_secret),
            refresh_token: crate::text::copy_opt(&self.refresh_token),
            fingerprint: self.fingerprint.clone(),
        }
    }
}

/// The digest by which a change of the secrets is noticed.
pub open spec fn secrets_digest(secret: Option<Seq<char>>, refresh: Option<Seq<char>>) -> Seq<char> {
    digest_of(or_empty(secret) + "\0"@ + or_empty(refresh))
}

/// The secrets with their digest.
pub fn oauth_secrets(client_secret: Option<String>, refresh_token: Option<String>) -> (r: OauthSecrets)
    ensures
        r@ == (OauthSecretsModel {
            client_secret: opt_text(client_secret),
            refresh_token: opt_text(refresh_token),
            fingerprint: secrets_digest(opt_text(client_secret), opt_text(refresh_token)),
        }),
{
    let a = match &client_secret {
        Some(s) => s.as_str(),
        None => "",
    };
    let b = match &refresh_token {
        Some(s) => s.as_str(),
        None => "",
    };
    let material = concat3(a, "\0", b);
    let fingerprint = digest(material.as_str());
    OauthSecrets { client_secret, refresh_token, fingerprint }
}

/// A credential of a private file, without the whitespace around it.
pub open spec fn credential_check(text: Seq<char>) -> Result<Seq<char>, Failure> {
    let t = trimmed(text);
    if t.len() == 0 || byte_count(t) > 4096 || !all_graphic(t) {
        Err(Failure::Bad("Invalid SCIM target credential"@))
    } else {
        Ok(t)
    }
}

pub fn credential(text: &str) -> (r: Result<String, Error>)
    ensures
        agrees_with(r, credential_check(text@)),
{
    let t = trim(text);
    if t.as_str().is_empty() || byte_len(t.as_str()) > 4096 || !is_graphic(t.as_str()) {
        return Err(Error::bad("Invalid SCIM target credential"));
    }
    Ok(t)
}

/// The form that asks for a token.
pub open spec fn form_of(o: OauthModel, s: OauthSecretsModel) -> Seq<(Seq<char>, Seq<char>)> {
    let f = seq![("grant_type"@, grant_name(o.grant)), ("client_id"@, o.client_id)];
    let f1 = match s.client_secret {
        Some(v) => f.push(("client_secret"@, v)),
        None => f,
    };
    let f2 = match s.refresh_token {
        Some(v) => f1.push(("refresh_token"@, v)),
        None => f1,
    };
    let f3 = match o.scope {
        Some(v) => f2.push(("scope"@, v)),
        None => f2,
    };
    match o.audience {
        Some(v) => f3.push(("audience"@, v)),
        None => f3,
    }
}

fn push_pair(form: &mut Vec<(String, String)>, key: &str, value: &str)
    ensures
        pair_texts(final(form)@) == pair_texts(old(form)@).push((key@, value@)),
{
    let ghost was = pair_texts(form@);
    form.push((key.to_owned(), value.to_owned()));
    assert(pair_texts(form@) =~= was.push((key@, value@)));
}

/// The form that asks for a token.
pub fn token_form(oauth: &Oauth, secrets: &OauthSecrets) -> (r: Vec<(String, String)>)
    ensures
        pair_texts(r@) == form_of(oauth@, secrets@),
{
    let mut form: Vec<(String, String)> = Vec::new();
    assert(pair_texts(form@) =~= Seq::<(Seq<char>, Seq<char>)>::empty());
    push_pair(&mut form, "grant_type", oauth.grant.as_str());
    push_pair(&mut form, "client_id", oauth.client_id.as_str());
    assert(pair_texts(form@) =~= seq![
        ("grant_type"@, grant_name(oauth@.grant)),
        ("client_id"@, oauth@.client_id),
    ]);
    if let Some(v) = &secrets.client_secret {
        push_pair(&mut form, "client_secret", v.as_str());
    }
    if let Some(v) = &secrets.refresh_token {
        push_pair(&mut form, "refresh_token", v.as_str());
    }
    if let Some(v) = &oauth.scope {
        push_pair(&mut form, "scope", v.as_str());
    }
    if let Some(v) = &oauth.audience {
        push_pair(&mut form, "audience", v.as_str());
    }
    form
}

/// A failure of the token endpoint or the target.
pub open spec fn endpoint_failure(message: Seq<char>) -> Failure {
    Failure::Reply(502, "provisioning_remote_error"@, message)
}

/// What the token endpoint answered.
pub struct TokenResponse {
    pub access_token: Option<String>,
    pub token_type: Option<String>,
    pub expires_in: Option<Json>,
    pub scope: Option<Json>,
    pub audience: Option<Json>,
    pub aud: Option<Json>,
}

/// What a [`TokenResponse`] holds.
pub struct TokenResponseModel {
    pub access_token: Option<Seq<char>>,
    pub token_type: Option<Seq<char>>,
    pub expires_in: Option<JsonModel>,
    pub scope: Option<JsonModel>,
    pub audience: Option<JsonModel>,
    pub aud: Option<JsonModel>,
}

impl View for TokenResponse {
    type V = TokenResponseModel;

    open spec fn view(&self) -> TokenResponseModel {
        TokenResponseModel {
            access_token: crate::text::opt_text(self.access_token),
            token_type: crate::text::opt_text(self.token_type),
            expires_in: crate::table::opt_view(self.expires_in),
            scope: crate::table::opt_view(self.scope),
            audience: crate::table::opt_view(self.audience),
            aud: crate::table::opt_view(self.aud),
        }
    }
}

impl Row for TokenResponse {
    fn dup(&self) -> (r: Self) {
        TokenResponse {
            access_token: crate::text::copy_opt(&self.access_token),
            token_type: crate::text::copy_opt(&self.token_type),
            expires_in: crate::table::dup_opt(&self.expires_in),
            scope: crate::table::dup_opt(&self.scope),
            audience: crate::table::dup_opt(&self.audience),
            aud: crate::table::dup_opt(&self.aud),
        }
    }
}

/// Why a reply without success is reported, and whether the request is made again.
pub fn token_refused(status: u16) -> (r: (Error, bool))
    ensures
        r.0@ == endpoint_failure(
            "SCIM OAuth token endpoint returned HTTP "@ + decimal(status as nat),
        ),
        r.1 == (500 <= status < 600),
{
    let n = decimal_text(status as u64);
    let m = concat("SCIM OAuth token endpoint returned HTTP ", n.as_str());
    (
        Error::Reply(502, "provisioning_remote_error".to_owned(), m),
        500 <= status && status < 600,
    )
}

/// The texts of an array.
pub open spec fn texts_in(v: Seq<JsonModel>) -> Set<Seq<char>> {
    Set::new(|s: Seq<char>| exists|i: int| 0 <= i < v.len() && #[trigger] v[i] == JsonModel::Text(s))
}

/// The scopes that a value grants.
pub open spec fn granted_scopes(v: JsonModel) -> Option<Set<Seq<char>>> {
    match v {
        JsonModel::Text(t) => Some(words(t).to_set()),
        JsonModel::Array(items) => Some(texts_in(items)),
        _ => None,
    }
}

/// Every required scope is granted.
pub open spec fn covers_scope(granted: JsonModel, required: Seq<char>) -> bool {
    granted_scopes(granted) matches Some(s) && forall|i: int|
        0 <= i < words(required).len() ==> s.contains(#[trigger] words(required)[i])
}

/// The required audience is among those of the value.
pub open spec fn covers_audience(v: JsonModel, required: Seq<char>) -> bool {
    match v {
        JsonModel::Text(t) => t == required,
        JsonModel::Array(items) => texts_in(items).contains(required),
        _ => false,
    }
}

fn array_has(items: &Vec<Json>, text: &str) -> (r: bool)
    ensures
        r == texts_in(item_models(*items, items.len() as nat)).contains(text@),
{
    proof {
        lemma_items(*items, items.len() as nat);
    }
    let ghost m = item_models(*items, items.len() as nat);
    let mut i: usize = 0;
    while i < items.len()
        invariant
            i <= items.len(),
            m == item_models(*items, items.len() as nat),
            m.len() == items.len(),
            forall|j: int| 0 <= j < items.len() ==> #[trigger] m[j] == json_model(items[j]),
            forall|j: int| 0 <= j < i ==> #[trigger] m[j] != JsonModel::Text(text@),
        decreases items.len() - i,
    {
        assert(m[i as int] == json_model(items[i as int]));
        if let Json::Text(t) = &items[i] {
            if same(t.as_str(), text) {
                return true;
            }
        }
        i = i + 1;
    }
    false
}

pub fn scope_covers(granted: &Json, required: &str) -> (r: bool)
    ensures
        r == covers_scope(granted@, required@),
{
    let need = split_words(required);
    let ghost all = words(required@);
    let listed: Option<Vec<String>> = match granted {
        Json::Text(t) => Some(split_words(t.as_str())),
        _ => None,
    };
    let usable = match granted {
        Json::Text(_) => true,
        Json::Array(_) => true,
        _ => false,
    };
    if !usable {
        return false;
    }
    let mut i: usize = 0;
    while i < need.len()
        invariant
            i <= need.len(),
            all == texts(need@),
            all == words(required@),
            granted is Text || granted is Array,
            granted is Text ==> listed is Some && texts(listed->0@) == words((granted->Text_0)@),
            granted_scopes(granted@) is Some,
            forall|j: int|
                0 <= j < i ==> (granted_scopes(granted@)->0).contains(#[trigger] all[j]),
        decreases need.len() - i,
    {
        assert(all[i as int] == need@[i as int]@);
        let covered = match granted {
            Json::Array(items) => array_has(items, need[i].as_str()),
            _ => match &listed {
                Some(l) => among(need[i].as_str(), l),
                None => false,
            },
        };
        if !covered {
            return false;
        }
        i = i + 1;
    }
    true
}

pub fn audience_covers(audience: &Json, required: &str) -> (r: bool)
    ensures
        r == covers_audience(audience@, required@),
{
    match audience {
        Json::Text(t) => same(t.as_str(), required),
        Json::Array(items) => array_has(items, required),
        _ => false,
    }
}

/// A value, if there is one, covers the scope.
pub open spec fn scope_allows(v: Option<JsonModel>, required: Seq<char>) -> bool {
    v matches Some(x) ==> covers_scope(x, required)
}

/// A value, if there is one, covers the audience.
pub open spec fn audience_allows(v: Option<JsonModel>, required: Seq<char>) -> bool {
    v matches Some(x) ==> covers_audience(x, required)
}

/// The claim of this name, where the token's claims were read.
pub open spec fn claim_of(claims: Option<JsonModel>, name: Seq<char>) -> Option<JsonModel> {
    match claims {
        Some(c) => c.member(name),
        None => None,
    }
}

/// Whether the answer and the token's own claims cover what the target was configured with.
pub open spec fn restrictions_check(
    o: OauthModel,
    r: TokenResponseModel,
    claims: Option<JsonModel>,
) -> Result<(), Failure> {
    let scope_failure = endpoint_failure("SCIM OAuth token does not cover the configured scope"@);
    let audience_failure = endpoint_failure(
        "SCIM OAuth token does not cover the configured audience"@,
    );
    if o.scope is Some && !(scope_allows(r.scope, o.scope->0) && scope_allows(
        claim_of(claims, "scope"@),
        o.scope->0,
    ) && scope_allows(claim_of(claims, "scp"@), o.scope->0)) {
        Err(scope_failure)
    } else if o.audience is Some && !(audience_allows(r.audience, o.audience->0) && audience_allows(
        r.aud,
        o.audience->0,
    ) && audience_allows(claim_of(claims, "aud"@), o.audience->0)) {
        Err(audience_failure)
    } else {
        Ok(())
    }
}

fn scope_ok(v: &Option<Json>, required: &str) -> (r: bool)
    ensures
        r == scope_allows(opt_view(*v), required@),
{
    match v {
        Some(x) => scope_covers(x, required),
        None => true,
    }
}

fn audience_ok(v: &Option<Json>, required: &str) -> (r: bool)
    ensures
        r == audience_allows(opt_view(*v), required@),
{
    match v {
        Some(x) => audience_covers(x, required),
        None => true,
    }
}

/// The token has the shape of a signed token: three parts, none of them empty.
pub open spec fn signed_shape(token: Seq<char>) -> bool {
    let p = parts(token, '.');
    p.len() == 3 && p[0].len() > 0 && p[1].len() > 0 && p[2].len() > 0
}

/// Whether a token has claims to read: three parts, none of them empty.
pub fn has_claims(token: &str) -> (r: bool)
    ensures
        r == signed_shape(token@),
{
    let p = split(token, '.');
    let ghost all = texts(p@);
    assert(all.len() == p.len());
    if p.len() != 3 {
        return false;
    }
    assert(all[0] == p@[0]@ && all[1] == p@[1]@ && all[2] == p@[2]@);
    !p[0].as_str().is_empty() && !p[1].as_str().is_empty() && !p[2].as_str().is_empty()
}

/// The claims of a token that has the shape of a signed one, where they are an object.
pub open spec fn readable_claims(token: Seq<char>) -> Option<JsonModel> {
    if signed_shape(token) && (token_payload(token) matches Some(JsonModel::Object(_))) {
        token_payload(token)
    } else {
        None
    }
}

/// Reads the claims of a token. Its signature is the concern of whoever receives it.
pub fn unverified_claims(token: &str) -> (r: Option<Json>)
    ensures
        opt_view(r) == readable_claims(token@),
{
    if !has_claims(token) {
        return None;
    }
    match decode_payload(token) {
        Some(Json::Object(m)) => Some(Json::Object(m)),
        _ => None,
    }
}

/// Checks an answer against the configured scope and audience. `claims` are the token's own claims
/// where it has the shape of a signed token and they could be read; the signature is the concern of
/// whoever receives the token.
pub fn enforce_token_restrictions(
    oauth: &Oauth,
    response: &TokenResponse,
    claims: &Option<Json>,
) -> (r: Result<(), Error>)
    ensures
        agrees(r, restrictions_check(oauth@, response@, opt_view(*claims))),
{
    if let Some(required) = &oauth.scope {
        let mut ok = scope_ok(&response.scope, required.as_str());
        if let Some(c) = claims {
            if let Some(v) = c.get("scope") {
                ok = ok && scope_covers(v, required.as_str());
            }
            if let Some(v) = c.get("scp") {
                ok = ok && scope_covers(v, required.as_str());
            }
        }
        if !ok {
            return Err(
                Error::reply(
                    502,
                    "provisioning_remote_error",
                    "SCIM OAuth token does not cover the configured scope",
                ),
            );
        }
    }
    if let Some(required) = &oauth.audience {
        let mut ok = audience_ok(&response.audience, required.as_str()) && audience_ok(
            &response.aud,
            required.as_str(),
        );
        if let Some(c) = claims {
            if let Some(v) = c.get("aud") {
                ok = ok && audience_covers(v, required.as_str());
            }
        }
        if !ok {
            return Err(
                Error::reply(
                    502,
                    "provisioning_remote_error",
                    "SCIM OAuth token does not cover the configured audience",
                ),
            );
        }
    }
    Ok(())
}

/// How long a token lasts, in seconds. `whole` is the whole part of a number that is written with a
/// fraction, where that is a time.
pub open spec fn lifetime_of(v: Option<JsonModel>, whole: Option<u64>) -> Result<u64, Failure> {
    match v {
        None => Ok(60),
        Some(JsonModel::Unsigned(n)) => Ok(n),
        Some(JsonModel::Fraction(_)) => match whole {
            Some(n) => Ok(n),
            None => Err(
                endpoint_failure("SCIM OAuth token endpoint returned an invalid token"@),
            ),
        },
        Some(_) => Err(endpoint_failure("SCIM OAuth token endpoint returned an invalid token"@)),
    }
}

/// A token that can be used.
pub struct IssuedToken {
    pub token: String,
    pub expires_at: u64,
    pub fingerprint: String,
}

/// What a [`IssuedToken`] holds.
pub struct IssuedTokenModel {
    pub token: Seq<char>,
    pub expires_at: u64,
    pub fingerprint: Seq<char>,
}

impl View for IssuedToken {
    type V = IssuedTokenModel;

    open spec fn view(&self) -> IssuedTokenModel {
        IssuedTokenModel {
            token: self.token@,
            expires_at: self.expires_at,
            fingerprint: self.fingerprint@,
        }
    }
}

impl Row for IssuedToken {
    fn dup(&self) -> (r: Self) {
        IssuedToken {
            token: self.token.clone(),
            expires_at: self.expires_at,
            fingerprint: self.fingerprint.clone(),
        }
    }
}

/// The token of an answer, or why it cannot be used. It is reused until half a minute before it ends.
pub open spec fn issued_check(
    o: OauthModel,
    r: TokenResponseModel,
    claims: Option<JsonModel>,
    whole: Option<u64>,
    now: u64,
) -> Result<IssuedTokenModel, Failure> {
    let kind = trimmed(or_empty(r.token_type));
    let access = trimmed(or_empty(r.access_token));
    if lower(kind) != lower("bearer"@) {
        Err(endpoint_failure("SCIM OAuth token endpoint returned a non-bearer token"@))
    } else if access.len() == 0 {
        Err(endpoint_failure("SCIM OAuth token endpoint returned an empty token"@))
    } else if byte_count(access) > 8192 || !all_graphic(access) {
        Err(endpoint_failure("SCIM OAuth token endpoint returned an invalid token"@))
    } else if restrictions_check(o, r, claims) is Err {
        Err(restrictions_check(o, r, claims)->Err_0)
    } else {
        match lifetime_of(r.expires_in, whole) {
            Err(f) => Err(f),
            Ok(n) => Ok(
                IssuedTokenModel {
                    token: access,
                    expires_at: extended(
                        now,
                        if n > 30 {
                            (n - 30) as u64
                        } else {
                            0
                        },
                    ),
                    fingerprint: digest_of(access),
                },
            ),
        }
    }
}

/// Accepts the answer of the token endpoint.
pub fn accept_token(
    oauth: &Oauth,
    response: &TokenResponse,
    whole: Option<u64>,
    now: u64,
) -> (r: Result<IssuedToken, Error>)
    ensures
        agrees_with(
            r,
            issued_check(
                oauth@,
                response@,
                readable_claims(trimmed(or_empty(response@.access_token))),
                whole,
                now,
            ),
        ),
{
    let kind = match &response.token_type {
        Some(t) => trim(t.as_str()),
        None => trim(""),
    };
    let access = match &response.access_token {
        Some(t) => trim(t.as_str()),
        None => trim(""),
    };
    if !same_ignoring_case(kind.as_str(), "bearer") {
        return Err(
            Error::reply(
                502,
                "provisioning_remote_error",
                "SCIM OAuth token endpoint returned a non-bearer token",
            ),
        );
    }
    if access.as_str().is_empty() {
        return Err(
            Error::reply(
                502,
                "provisioning_remote_error",
                "SCIM OAuth token endpoint returned an empty token",
            ),
        );
    }
    if byte_len(access.as_str()) > 8192 || !is_graphic(access.as_str()) {
        return Err(
            Error::reply(
                502,
                "provisioning_remote_error",
                "SCIM OAuth token endpoint returned an invalid token",
            ),
        );
    }
    let claims = unverified_claims(access.as_str());
    if let Err(e) = enforce_token_restrictions(oauth, response, &claims) {
        return Err(e);
    }
    let seconds: Option<u64> = match &response.expires_in {
        None => Some(60),
        Some(Json::Unsigned(n)) => Some(*n),
        Some(Json::Fraction(_)) => whole,
        Some(_) => None,
    };
    let lifetime = match seconds {
        Some(n) => n,
        None => return Err(
            Error::reply(
                502,
                "provisioning_remote_error",
                "SCIM OAuth token endpoint returned an invalid token",
            ),
        ),
    };
    let fingerprint = digest(access.as_str());
    Ok(
        IssuedToken {
            token: access,
            expires_at: now.saturating_add(lifetime.saturating_sub(30)),
            fingerprint,
        },
    )
}

/// A token in memory, or the place of one that was dropped.
pub struct Slot {
    pub generation: u64,
    pub secret_fingerprint: String,
    pub expires_at: u64,
    pub token: Option<String>,
}

/// What a [`Slot`] holds.
pub struct SlotModel {
    pub generation: u64,
    pub secret_fingerprint: Seq<char>,
    pub expires_at: u64,
    pub token: Option<Seq<char>>,
}

impl View for Slot {
    type V = SlotModel;

    open spec fn view(&self) -> SlotModel {
        SlotModel {
            generation: self.generation,
            secret_fingerprint: self.secret_fingerprint@,
            expires_at: self.expires_at,
            token: crate::text::opt_text(self.token),
        }
    }
}

impl Row for Slot {
    fn dup(&self) -> (r: Self) {
        Slot {
            generation: self.generation,
            secret_fingerprint: self.secret_fingerprint.clone(),
            expires_at: self.expires_at,
            token: crate::text::copy_opt(&self.token),
        }
    }
}

/// A bearer credential, with the generation of the cached token that it is.
pub struct Bearer {
    pub generation: u64,
    pub token: String,
}

/// What a [`Bearer`] holds.
pub struct BearerModel {
    pub generation: u64,
    pub token: Seq<char>,
}

impl View for Bearer {
    type V = BearerModel;

    open spec fn view(&self) -> BearerModel {
        BearerModel {
            generation: self.generation,
            token: self.token@,
        }
    }
}

impl Row for Bearer {
    fn dup(&self) -> (r: Self) {
        Bearer {
            generation: self.generation,
            token: self.token.clone(),
        }
    }
}

/// The tokens in memory, by target and configuration.
pub struct TokenCache {
    pub slots: Table<Slot>,
}

/// What a [`TokenCache`] holds.
pub struct TokenCacheModel {
    pub slots: Map<Seq<char>, SlotModel>,
}

impl View for TokenCache {
    type V = TokenCacheModel;

    open spec fn view(&self) -> TokenCacheModel {
        TokenCacheModel {
            slots: self.slots@,
        }
    }
}

impl Row for TokenCache {
    fn dup(&self) -> (r: Self) {
        TokenCache {
            slots: self.slots.dup(),
        }
    }
}

/// The key of a target's token under one configuration.
pub open spec fn cache_key_of(name: Seq<char>, fingerprint: Seq<char>) -> Seq<char> {
    name + "\0"@ + fingerprint
}

pub fn cache_key(name: &str, config_fingerprint: &str) -> (r: String)
    ensures
        r@ == cache_key_of(name@, config_fingerprint@),
{
    concat3(name, "\0", config_fingerprint)
}

/// The entry is a token of the target `name`.
pub open spec fn of_target(key: Seq<char>, name: Seq<char>) -> bool {
    has_prefix(key, name + "\0"@)
}

/// The cache without the tokens of a target, except the one under `keep`.
pub open spec fn without_target(
    m: Map<Seq<char>, SlotModel>,
    name: Seq<char>,
    keep: Option<Seq<char>>,
) -> Map<Seq<char>, SlotModel> {
    Map::new(
        |k: Seq<char>| m.dom().contains(k) && (!of_target(k, name) || keep == Some(k)),
        |k: Seq<char>| m[k],
    )
}

/// The cached token under `key`, where it still serves.
pub open spec fn cached(m: Map<Seq<char>, SlotModel>, key: Seq<char>, secret: Seq<char>, now: u64) -> Option<
    BearerModel,
> {
    if m.dom().contains(key) && m[key].secret_fingerprint == secret && m[key].expires_at > now
        && m[key].token is Some {
        Some(BearerModel { generation: m[key].generation, token: m[key].token->0 })
    } else {
        None
    }
}

/// The generation of the next token under `key`.
pub open spec fn next_generation(m: Map<Seq<char>, SlotModel>, key: Seq<char>) -> u64 {
    if !m.dom().contains(key) {
        1
    } else if m[key].token is None {
        if m[key].generation > 1 {
            m[key].generation
        } else {
            1
        }
    } else {
        extended(m[key].generation, 1)
    }
}

/// The cache after the token of this generation was refused: it is dropped where it still stands.
pub open spec fn invalidated(m: Map<Seq<char>, SlotModel>, key: Seq<char>, generation: u64) -> Map<
    Seq<char>,
    SlotModel,
> {
    if m.dom().contains(key) && m[key].generation == generation && m[key].token is Some {
        m.insert(
            key,
            SlotModel {
                token: None,
                expires_at: 0,
                generation: extended(generation, 1),
                ..m[key]
            },
        )
    } else {
        m
    }
}

impl TokenCache {
    pub fn new() -> (r: TokenCache)
        ensures
            r@.slots == Map::<Seq<char>, SlotModel>::empty(),
    {
        TokenCache { slots: Table::new() }
    }

    pub fn cached_bearer(&self, key: &str, secret_fingerprint: &str, now: u64) -> (r: Option<Bearer>)
        ensures
            opt_view(r) == cached(self@.slots, key@, secret_fingerprint@, now),
    {
        match self.slots.get(key) {
            None => None,
            Some(s) => {
                if !same(s.secret_fingerprint.as_str(), secret_fingerprint) || s.expires_at <= now {
                    return None;
                }
                match &s.token {
                    Some(t) => Some(Bearer { generation: s.generation, token: t.clone() }),
                    None => None,
                }
            },
        }
    }

    /// Drops the tokens of a target, except the one under `keep`.
    fn drop_target(&mut self, name: &str, keep: Option<&str>)
        ensures
            final(self)@.slots == without_target(old(self)@.slots, name@, opt_str(keep)),
    {
        let prefix = concat(name, "\0");
        let ghost m = self@.slots;
        let ghost gone = |k: Seq<char>| of_target(k, name@) && opt_str(keep) != Some(k);
        let mut i: usize = 0;
        self.slots.listing();
        while i < self.slots.len()
            invariant
                i <= self.slots.entries().len(),
                prefix@ == name@ + "\0"@,
                gone == (|k: Seq<char>| of_target(k, name@) && opt_str(keep) != Some(k)),
                forall|k: Seq<char>| #[trigger]
                    self@.slots.dom().contains(k) ==> m.dom().contains(k) && self@.slots[k] == m[k],
                forall|k: Seq<char>| #[trigger]
                    m.dom().contains(k) && !self@.slots.dom().contains(k) ==> gone(k),
                forall|j: int| 0 <= j < i ==> !gone((#[trigger] self.slots.entries()[j]).0),
            decreases self.slots.entries().len() - i,
        {
            self.slots.listing();
            let key = self.slots.key_at(i);
            let kept = match keep {
                Some(k) => same(k, key.as_str()),
                None => false,
            };
            if starts_with(key.as_str(), prefix.as_str()) && !kept {
                let ghost was = self.slots.entries();
                let ghost table = self@.slots;
                self.slots.remove_at(i);
                proof {
                    assert forall|k: Seq<char>| #[trigger] self@.slots.dom().contains(k) implies m.dom().contains(
                        k,
                    ) && self@.slots[k] == m[k] by {
                        assert(table.dom().contains(k));
                    }
                    assert forall|j: int| 0 <= j < i implies !gone(
                        (#[trigger] self.slots.entries()[j]).0,
                    ) by {
                        assert(self.slots.entries()[j] == was[j]);
                    }
                }
            } else {
                i = i + 1;
            }
        }
        self.slots.listing();
        proof {
            assert forall|k: Seq<char>| #[trigger] self@.slots.dom().contains(k) implies !gone(k) by {
                let j = position(self.slots.entries(), k);
                assert(self.slots.entries()[j].0 == k);
            }
            assert(self@.slots =~= without_target(m, name@, opt_str(keep)));
        }
    }

    /// Remembers a new token, in place of every other one of the target. Answers its generation.
    pub fn store_bearer(
        &mut self,
        name: &str,
        key: &str,
        secret_fingerprint: &str,
        issued: &IssuedToken,
    ) -> (generation: u64)
        ensures
            generation == next_generation(old(self)@.slots, key@),
            final(self)@.slots == without_target(old(self)@.slots, name@, Some(key@)).insert(
                key@,
                SlotModel {
                    generation,
                    secret_fingerprint: secret_fingerprint@,
                    expires_at: issued@.expires_at,
                    token: Some(issued@.token),
                },
            ),
    {
        let generation = match self.slots.get(key) {
            None => 1,
            Some(s) => {
                if s.token.is_none() {
                    if s.generation > 1 {
                        s.generation
                    } else {
                        1
                    }
                } else {
                    s.generation.saturating_add(1)
                }
            },
        };
        self.drop_target(name, Some(key));
        self.slots.put(
            key,
            Slot {
                generation,
                secret_fingerprint: secret_fingerprint.to_owned(),
                expires_at: issued.expires_at,
                token: Some(issued.token.clone()),
            },
        );
        generation
    }

    /// Forgets the token under `key`.
    pub fn forget_cache_key(&mut self, key: &str)
        ensures
            final(self)@.slots == old(self)@.slots.remove(key@),
    {
        self.slots.delete(key);
    }

    /// Drops the token under `key` if it is still the one that was refused.
    pub fn invalidate_generation(&mut self, key: &str, generation: u64)
        ensures
            ({
                let m = old(self)@.slots;
                final(self)@.slots == invalidated(m, key@, generation)
            }),
    {
        let row = match self.slots.get(key) {
            Some(s) => {
                if s.generation == generation && s.token.is_some() {
                    Some(
                        Slot {
                            generation: generation.saturating_add(1),
                            secret_fingerprint: s.secret_fingerprint.clone(),
                            expires_at: 0,
                            token: None,
                        },
                    )
                } else {
                    None
                }
            },
            None => None,
        };
        if let Some(s) = row {
            self.slots.put(key, s);
        }
    }
}

/// The credential for a target, or nothing where a token has to be requested. `secret` is what
/// reading its secret gave: the token itself of a target without OAuth, the fingerprint of its
/// secrets of one with it.
pub open spec fn bearer_for(
    x: TargetModel,
    m: Map<Seq<char>, SlotModel>,
    key: Seq<char>,
    secret: Result<Seq<char>, Failure>,
    now: u64,
    rules: RulesModel,
) -> Result<Option<BearerModel>, Failure> {
    match scim_target_check(x, rules) {
        Err(f) => Err(f),
        Ok(_) => match secret {
            Err(f) => Err(f),
            Ok(s) => if x.oauth is None {
                Ok(Some(BearerModel { generation: 0, token: s }))
            } else {
                Ok(cached(m, key, s, now))
            },
        },
    }
}

/// What is done with the answer of a target.
#[derive(Clone, Copy, PartialEq, Eq, Structural, Debug)]
pub enum Authorized {
    /// The answer stands.
    Answered,
    /// The request is made once more, with a credential looked up again.
    Again,
}

impl Target {
    /// The credential for this target, or nothing where a token has to be requested.
    pub fn bearer(
        &self,
        cache: &TokenCache,
        key: &str,
        secret: &Result<String, Error>,
        now: u64,
        rules: &Rules,
    ) -> (r: Result<Option<Bearer>, Error>)
        ensures
            ({
                let read = match *secret {
                    Ok(s) => Ok::<Seq<char>, Failure>(s@),
                    Err(e) => Err::<Seq<char>, Failure>(e@),
                };
                match bearer_for(self@, cache@.slots, key@, read, now, rules@) {
                    Ok(b) => r is Ok && opt_view(r->Ok_0) == b,
                    Err(f) => fails(r, f),
                }
            }),
    {
        if let Err(e) = self.validate(rules) {
            return Err(e);
        }
        match secret {
            Err(e) => Err(e.dup()),
            Ok(s) => {
                if self.oauth.is_none() {
                    Ok(Some(Bearer { generation: 0, token: s.clone() }))
                } else {
                    Ok(cache.cached_bearer(key, s.as_str(), now))
                }
            },
        }
    }

    /// Reads the status of an answer. A credential that was refused once is dropped from the cache
    /// and the request made again; refused twice, the delivery fails.
    pub fn authorized(
        &self,
        cache: &mut TokenCache,
        key: &str,
        generation: u64,
        again: bool,
        status: u16,
    ) -> (r: Result<Authorized, Error>)
        ensures
            final(cache)@.slots == if status == 401 && !again && self@.oauth is Some {
                invalidated(old(cache)@.slots, key@, generation)
            } else {
                old(cache)@.slots
            },
            status != 401 ==> r == Ok::<Authorized, Error>(Authorized::Answered),
            status == 401 && !again ==> r == Ok::<Authorized, Error>(Authorized::Again),
            status == 401 && again ==> fails(r, remote_failure()),
    {
        if status != 401 {
            return Ok(Authorized::Answered);
        }
        if again {
            return Err(remote_error());
        }
        if self.oauth.is_some() {
            cache.invalidate_generation(key, generation);
        }
        Ok(Authorized::Again)
    }
}

/// What one request to the token endpoint comes to: the token, nothing where it is made once more,
/// or the failure. A failure says whether it is worth another try, and a second one ends it.
pub fn request_token(again: bool, attempt: Result<IssuedToken, (Error, bool)>) -> (r: Result<
    Option<IssuedToken>,
    Error,
>)
    ensures
        match attempt {
            Ok(issued) => r is Ok && opt_view(r->Ok_0) == Some(issued@),
            Err((error, retry)) => if retry && !again {
                r is Ok && r->Ok_0 is None
            } else {
                fails(r, error@)
            },
        },
{
    match attempt {
        Ok(issued) => Ok(Some(issued)),
        Err((error, retry)) => {
            if retry && !again {
                Ok(None)
            } else {
                Err(error)
            }
        },
    }
}

/// Takes a token that was issued into the cache. Where noting it in the store failed, it is
/// forgotten again.
pub fn keep_bearer(
    cache: &mut TokenCache,
    name: &str,
    key: &str,
    secret_fingerprint: &str,
    issued: &IssuedToken,
    noted: Result<(), Error>,
) -> (r: Result<Bearer, Error>)
    ensures
        ({
            let m = old(cache)@.slots;
            let generation = next_generation(m, key@);
            let stored = without_target(m, name@, Some(key@)).insert(
                key@,
                SlotModel {
                    generation,
                    secret_fingerprint: secret_fingerprint@,
                    expires_at: issued@.expires_at,
                    token: Some(issued@.token),
                },
            );
            match noted {
                Ok(_) => r is Ok && (r->Ok_0)@ == (BearerModel { generation, token: issued@.token })
                    && final(cache)@.slots == stored,
                Err(e) => fails(r, e@) && final(cache)@.slots == stored.remove(key@),
            }
        }),
{
    let generation = cache.store_bearer(name, key, secret_fingerprint, issued);
    match noted {
        Err(e) => {
            cache.forget_cache_key(key);
            Err(e)
        },
        Ok(_) => Ok(Bearer { generation, token: issued.token.clone() }),
    }
}

/// A token that the target refused is not used again: once it is dropped, the next look-up under
/// its key finds nothing.
pub proof fn refused_tokens_are_not_found(
    m: Map<Seq<char>, SlotModel>,
    key: Seq<char>,
    secret: Seq<char>,
    now: u64,
)
    requires
        cached(m, key, secret, now) is Some,
    ensures
        cached(invalidated(m, key, (cached(m, key, secret, now)->0).generation), key, secret, now) is None,
{
}

/// Drops every cached token of a target: the next request asks the token endpoint again.
pub fn discard_cached_bearer(cache: &mut TokenCache, target_name: &str)
    ensures
        final(cache)@.slots == without_target(old(cache)@.slots, target_name@, None),
{
    cache.drop_target(target_name, None);
}

/// A stored token is the one that is found, until it ends or the secrets change; a discarded or
/// refused one is not found.
pub proof fn the_cache_finds_what_it_stored(
    m: Map<Seq<char>, SlotModel>,
    name: Seq<char>,
    key: Seq<char>,
    secret: Seq<char>,
    issued: IssuedTokenModel,
    now: u64,
)
    requires
        issued.expires_at > now,
        of_target(key, name),
    ensures
        ({
            let slot = SlotModel {
                generation: next_generation(m, key),
                secret_fingerprint: secret,
                expires_at: issued.expires_at,
                token: Some(issued.token),
            };
            let stored = without_target(m, name, Some(key)).insert(key, slot);
            &&& cached(stored, key, secret, now) == Some(
                BearerModel { generation: slot.generation, token: issued.token },
            )
            &&& cached(without_target(stored, name, None), key, secret, now) is None
            &&& forall|other: Seq<char>|
                other != key && of_target(other, name) ==> !#[trigger] stored.dom().contains(other)
        }),
{
}

/// A token that an endpoint issued is used as a bearer token until half a minute before it expires; one
/// of another kind, or that does not cover what was asked, is not used.
pub proof fn issued_tokens_are_used_until_they_expire(
    o: OauthModel,
    r: TokenResponseModel,
    claims: Option<JsonModel>,
    seconds: u64,
    now: u64,
)
    requires
        r.expires_in == Some(JsonModel::Unsigned(seconds)),
        seconds >= 30,
        now + seconds <= u64::MAX,
    ensures
        ({
            let out = issued_check(o, r, claims, None, now);
            let access = trimmed(or_empty(r.access_token));
            &&& out is Ok <==> {
                &&& lower(trimmed(or_empty(r.token_type))) == lower("bearer"@)
                &&& access.len() > 0 && byte_count(access) <= 8192 && all_graphic(access)
                &&& restrictions_check(o, r, claims) is Ok
            }
            &&& out matches Ok(i) ==> i.token == access && i.expires_at == now + seconds - 30
                && i.fingerprint == digest_of(access)
        }),
{
}

/// What was asked of a token is not taken from it: where the endpoint or the token says which scopes and
/// audiences it has, those that were asked are among them.
pub proof fn tokens_cover_what_was_asked(
    o: OauthModel,
    r: TokenResponseModel,
    claims: Option<JsonModel>,
    scope: Seq<char>,
    audience: Seq<char>,
)
    requires
        restrictions_check(o, r, claims) is Ok,
    ensures
        o.scope == Some(scope) && r.scope is Some ==> covers_scope(r.scope->0, scope),
        o.audience == Some(audience) && r.audience is Some ==> covers_audience(
            r.audience->0,
            audience,
        ),
        o.audience == Some(audience) && r.aud is Some ==> covers_audience(r.aud->0, audience),
        o.audience == Some(audience) && claims is Some && (claims->0).member("aud"@) is Some
            ==> covers_audience((claims->0).member("aud"@)->0, audience),
        o.scope == Some(scope) && claims is Some && (claims->0).member("scope"@) is Some
            ==> covers_scope((claims->0).member("scope"@)->0, scope),
{
}

/// A single audience is covered by itself alone.
pub proof fn an_audience_covers_itself(a: Seq<char>, b: Seq<char>)
    ensures
        covers_audience(JsonModel::Text(a), b) <==> a == b,
        covers_audience(JsonModel::Array(seq![JsonModel::Text(a)]), b) <==> a == b,
{
    let v = seq![JsonModel::Text(a)];
    assert(v[0] == JsonModel::Text(a));
    assert(texts_in(v).contains(b) <==> a == b);
}

/// A request for a token says what it is for and who asks, with the credentials that there are.
pub proof fn token_requests_say_who_asks(o: OauthModel, s: OauthSecretsModel)
    ensures
        form_of(o, s)[0] == ("grant_type"@, if o.grant == OauthGrant::ClientCredentials {
            "client_credentials"@
        } else {
            "refresh_token"@
        }),
        form_of(o, s)[1] == ("client_id"@, o.client_id),
        s.client_secret matches Some(v) ==> form_of(o, s).contains(("client_secret"@, v)),
        s.refresh_token matches Some(v) ==> form_of(o, s).contains(("refresh_token"@, v)),
        o.scope matches Some(v) ==> form_of(o, s).contains(("scope"@, v)),
        o.audience matches Some(v) ==> form_of(o, s).contains(("audience"@, v)),
{
    let f = form_of(o, s);
    let i2: int = 2;
    let i3: int = if s.client_secret is Some {
        3
    } else {
        2
    };
    let i4: int = i3 + if s.refresh_token is Some {
        1int
    } else {
        0int
    };
    let i5: int = i4 + if o.scope is Some {
        1int
    } else {
        0int
    };
    if s.client_secret is Some {
        assert(f[i2] == ("client_secret"@, s.client_secret->0));
    }
    if s.refresh_token is Some {
        assert(f[i3] == ("refresh_token"@, s.refresh_token->0));
    }
    if o.scope is Some {
        assert(f[i4] == ("scope"@, o.scope->0));
    }
    if o.audience is Some {
        assert(f[i5] == ("audience"@, o.audience->0));
    }
}

/// A credential is one line of printed characters, blanks around it aside.
pub proof fn target_credentials_are_printed(text: Seq<char>)
    ensures
        credential_check(text) is Ok <==> 0 < trimmed(text).len() && byte_count(trimmed(text)) <= 4096
            && all_graphic(trimmed(text)),
        credential_check(text) matches Ok(t) ==> t == trimmed(text),
{
}

/// A target with a token of its own is called with it; one that gets tokens is called with what is kept,
/// if that still serves.
pub proof fn targets_are_called_with_their_token(
    x: TargetModel,
    m: Map<Seq<char>, SlotModel>,
    key: Seq<char>,
    secret: Result<Seq<char>, Failure>,
    now: u64,
    rules: RulesModel,
)
    ensures
        bearer_for(x, m, key, secret, now, rules) is Ok <==> scim_target_check(x, rules) is Ok && secret is Ok,
        scim_target_check(x, rules) is Ok && secret is Ok && x.oauth is None ==> (bearer_for(
            x,
            m,
            key,
            secret,
            now,
            rules,
        ) matches Ok(Some(b)) && b.token == secret->Ok_0),
        scim_target_check(x, rules) is Ok && secret is Ok && x.oauth is Some ==> bearer_for(
            x,
            m,
            key,
            secret,
            now,
            rules,
        ) == Ok::<Option<BearerModel>, Failure>(cached(m, key, secret->Ok_0, now)),
{
}

/// A token can be read if it has three parts and its middle one is an object.
pub proof fn readable_tokens_have_three_parts(token: Seq<char>)
    ensures
        readable_claims(token) is Some <==> parts(token, '.').len() == 3 && parts(token, '.')[0].len() > 0
            && parts(token, '.')[1].len() > 0 && parts(token, '.')[2].len() > 0 && (token_payload(token)
            matches Some(JsonModel::Object(_))),
        readable_claims(token) is Some ==> readable_claims(token) == token_payload(token),
{
}

/// A kept token serves for the secret that it was got with, while it is not over.
pub proof fn kept_tokens_serve_until_they_end(
    m: Map<Seq<char>, SlotModel>,
    key: Seq<char>,
    secret: Seq<char>,
    now: u64,
)
    ensures
        cached(m, key, secret, now) is Some <==> m.dom().contains(key) && m[key].secret_fingerprint == secret && now
            < m[key].expires_at && m[key].token is Some,
        cached(m, key, secret, now) matches Some(b) ==> b.token == m[key].token->0 && b.generation
            == m[key].generation,
{
}

} // verus!
