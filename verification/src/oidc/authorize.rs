//! Decisions on authorization requests.
use crate::engine::{ConfigModel, Core, audit, audited, drawn, extended, next_id};
use crate::error::{Error, Failure, agrees, fails};
use crate::exchange::TOKEN_EXCHANGE;
use crate::issuer::issuer_of;
use crate::jose::{AssertionClaims, AssertionClaimsModel, JWT_GRANT};
use crate::json::{Json, JsonModel};
use crate::model::{AuditModel, AuthenticationTransaction, AuthenticationTransactionModel, Client, ClientModel, Code, CodeModel, Device, Identity, IdentityModel, Session, SessionModel};
use crate::names::Names;
use crate::oidc::{Authorization, AuthorizationModel, DEVICE_GRANT, TokenRequest, TokenRequestModel, active_client, authenticates, check_client, claims_offered, client_failure, get_client, given, hash_of_request, prompts, read_assertion, requested_scopes, scope_request};
use crate::outside::{append_query, base64url_bytes, base64url_decode, digest, digest_of, pair_texts, parse_url, url_of, url_with_pairs};
use crate::provider::{grant_allowed, grant_check, redirect_matches, redirect_registered};
use crate::resource::{invalid_target, resource_check};
use crate::rules::{Rules, RulesModel, rule_check};
use crate::store::{Tx, TxModel};
use crate::table::{Row, opt_view};
use crate::text::{among, byte_count, byte_len, copy_opt, opt_is, opt_str, opt_text, same, texts};
use vstd::prelude::*;
use vstd::string::*;

verus! {

/// A thumbprint of a proof key: 43 characters of base64url for 32 bytes.
pub open spec fn thumbprint(s: Seq<char>) -> bool {
    byte_count(s) == 43 && base64url_bytes(s) is Some && (base64url_bytes(s)->0).len() == 32
}

fn is_thumbprint(s: &str) -> (r: bool)
    ensures
        r == thumbprint(s@),
{
    byte_len(s) == 43 && match base64url_decode(s) {
        Some(b) => b.len() == 32,
        None => false,
    }
}

/// The prompts can be honoured together: each is known, and `none` stands alone.
pub open spec fn prompts_allowed(list: Seq<Seq<char>>) -> bool {
    let asked = list.filter(|p: Seq<char>| p.len() > 0);
    &&& forall|i: int|
        0 <= i < asked.len() ==> (#[trigger] asked[i] == "none"@ || asked[i] == "login"@ || asked[i]
            == "consent"@ || asked[i] == "select_account"@)
    &&& asked.contains("none"@) ==> asked.len() == 1
}

fn check_prompts(list: &Vec<String>) -> (r: bool)
    ensures
        r == prompts_allowed(texts(list@)),
{
    let ghost all = texts(list@);
    let ghost p = |s: Seq<char>| s.len() > 0;
    let mut asked: Vec<String> = Vec::new();
    let mut i: usize = 0;
    assert(texts(asked@) =~= all.take(0).filter(p));
    while i < list.len()
        invariant
            i <= list.len(),
            all == texts(list@),
            p == (|s: Seq<char>| s.len() > 0),
            texts(asked@) == all.take(i as int).filter(p),
        decreases list.len() - i,
    {
        let ghost was = texts(asked@);
        proof {
            assert(all.take(i + 1) =~= all.take(i as int).push(list@[i as int]@));
            all.take(i as int).lemma_filter_push(list@[i as int]@, p);
        }
        if !list[i].as_str().is_empty() {
            asked.push(list[i].clone());
            assert(texts(asked@) =~= was.push(list@[i as int]@));
        }
        i = i + 1;
    }
    assert(all.take(i as int) =~= all);
    let ghost kept = texts(asked@);
    let mut known: bool = true;
    let mut j: usize = 0;
    while j < asked.len()
        invariant
            j <= asked.len(),
            kept == texts(asked@),
            known == forall|k: int|
                0 <= k < j ==> (#[trigger] kept[k] == "none"@ || kept[k] == "login"@ || kept[k]
                    == "consent"@ || kept[k] == "select_account"@),
        decreases asked.len() - j,
    {
        assert(kept[j as int] == asked@[j as int]@);
        let s = asked[j].as_str();
        if !(same(s, "none") || same(s, "login") || same(s, "consent") || same(s, "select_account")) {
            known = false;
        }
        j = j + 1;
    }
    known && (!among("none", &asked) || asked.len() == 1)
}

/// The client and the scopes of an authorization request, or why it is refused. `scopes` is what
/// the assurance rules make of the requested scopes, or nothing where they refuse.
pub open spec fn authorization_check(
    t: TxModel,
    r: AuthorizationModel,
    rules: RulesModel,
    scopes: Option<Set<Seq<char>>>,
) -> Result<(ClientModel, Set<Seq<char>>), Failure> {
    if !active_client(t, r.client_id) {
        Err(client_failure())
    } else {
        let c = t.clients[r.client_id];
        if c.service {
            Err(
                Failure::Oauth(
                    "unauthorized_client"@,
                    "Service client cannot authenticate users"@,
                ),
            )
        } else if grant_check(c, "authorization_code"@) is Err {
            Err(grant_check(c, "authorization_code"@)->Err_0)
        } else if !redirect_registered(c, r.redirect_uri) {
            Err(Failure::Bad("Unregistered redirect URI"@))
        } else if r.response_type != "code"@ {
            Err(
                Failure::Oauth(
                    "unsupported_response_type"@,
                    "Only authorization code is supported"@,
                ),
            )
        } else if r.response_mode is Some && !rules.response_modes.contains(r.response_mode->0) {
            Err(Failure::Bad("Unsupported response mode"@))
        } else if r.dpop_jkt is Some && !thumbprint(r.dpop_jkt->0) {
            Err(Failure::Bad("Invalid DPoP key thumbprint"@))
        } else if r.code_challenge_method != "S256"@ || !thumbprint(r.code_challenge) {
            Err(Failure::Bad("A valid S256 PKCE challenge is required for every client"@))
        } else if (r.state is Some && byte_count(r.state->0) > 512) || (r.nonce is Some && byte_count(
            r.nonce->0,
        ) > 512) {
            Err(Failure::Bad("state and nonce must be at most 512 bytes"@))
        } else if !prompts_allowed(prompts(r)) {
            Err(Failure::Bad("Invalid prompt combination"@))
        } else if rule_check(rules, "request_reference"@) is Err {
            Err(rule_check(rules, "request_reference"@)->Err_0)
        } else if requested_scopes(r.scope, c) is Err {
            Err(requested_scopes(r.scope, c)->Err_0)
        } else if scopes is None {
            Err(Failure::Refused("assurance"@))
        } else if resource_check(c, r.resource, scopes->0) is Err {
            Err(resource_check(c, r.resource, scopes->0)->Err_0)
        } else if !(scopes->0).contains("openid"@) {
            Err(Failure::Oauth("invalid_scope"@, "openid is required"@))
        } else {
            Ok((c, scopes->0))
        }
    }
}

pub fn validate_authorization(
    tx: &Tx,
    request: &Authorization,
    rules: &Rules,
    scopes: &Option<Names>,
) -> (r: Result<(Client, Names), Error>)
    ensures
        match authorization_check(tx@, request@, rules@, opt_view(*scopes)) {
            Ok(p) => r is Ok && (r->Ok_0).0@ == p.0 && (r->Ok_0).1@ == p.1,
            Err(f) => fails(r, f),
        },
{
    let client = match get_client(tx, request.client_id.as_str()) {
        Ok(c) => c,
        Err(e) => return Err(e),
    };
    if client.service {
        return Err(
            Error::oauth("unauthorized_client", "Service client cannot authenticate users"),
        );
    }
    if let Err(e) = grant_allowed(&client, "authorization_code") {
        return Err(e);
    }
    if !redirect_matches(&client, request.redirect_uri.as_str()) {
        return Err(Error::bad("Unregistered redirect URI"));
    }
    if !same(request.response_type.as_str(), "code") {
        return Err(
            Error::oauth("unsupported_response_type", "Only authorization code is supported"),
        );
    }
    if let Some(mode) = &request.response_mode {
        if !rules.response_modes.contains(mode.as_str()) {
            return Err(Error::bad("Unsupported response mode"));
        }
    }
    if let Some(jkt) = &request.dpop_jkt {
        if !is_thumbprint(jkt.as_str()) {
            return Err(Error::bad("Invalid DPoP key thumbprint"));
        }
    }
    if !same(request.code_challenge_method.as_str(), "S256") || !is_thumbprint(
        request.code_challenge.as_str(),
    ) {
        return Err(Error::bad("A valid S256 PKCE challenge is required for every client"));
    }
    let long_state = match &request.state {
        Some(s) => byte_len(s.as_str()) > 512,
        None => false,
    };
    let long_nonce = match &request.nonce {
        Some(s) => byte_len(s.as_str()) > 512,
        None => false,
    };
    if long_state || long_nonce {
        return Err(Error::bad("state and nonce must be at most 512 bytes"));
    }
    let asked = request.prompt_list();
    if !check_prompts(&asked) {
        return Err(Error::bad("Invalid prompt combination"));
    }
    if let Err(e) = rules.check_rule("request_reference") {
        return Err(e);
    }
    if let Err(e) = scope_request(request.scope.as_str(), &client) {
        return Err(e);
    }
    let granted = match scopes {
        Some(s) => s.copy(),
        None => return Err(Error::Refused("assurance".to_owned())),
    };
    let resource = match &request.resource {
        Some(x) => Some(x.as_str()),
        None => None,
    };
    if let Err(e) = crate::resource::validate(&client, resource, &granted) {
        return Err(e);
    }
    if !granted.contains("openid") {
        return Err(Error::oauth("invalid_scope", "openid is required"));
    }
    Ok((client, granted))
}

/// The login is older than the request allows, or the request asks for a new one. `step_up` says
/// whether the assurance rules ask for a stronger login.
pub open spec fn login_too_old(r: AuthorizationModel, i: IdentityModel, step_up: bool, now: u64) -> bool {
    step_up || prompts(r).contains("login"@) || prompts(r).contains("select_account"@) || (
    r.max_age matches Some(age) && (age == 0 || i.auth_time == 0 || now - i.auth_time > age))
}

pub fn needs_reauthentication(
    request: &Authorization,
    identity: &Identity,
    step_up: bool,
    now: u64,
) -> (r: bool)
    ensures
        r == login_too_old(request@, identity@, step_up, now),
{
    if step_up || request.has_prompt("login") || request.has_prompt("select_account") {
        return true;
    }
    match request.max_age {
        Some(age) => age == 0 || identity.auth_time == 0 || now.saturating_sub(identity.auth_time)
            > age,
        None => false,
    }
}

pub open spec fn stage_check(a: AuthenticationTransactionModel) -> Result<(), Failure> {
    if a.source_stage is Some {
        Err(
            Failure::Bad("This authentication transaction belongs to an embedded source stage"@),
        )
    } else {
        Ok(())
    }
}

pub fn reject_embedded_stage(transaction: &AuthenticationTransaction) -> (r: Result<(), Error>)
    ensures
        agrees(r, stage_check(transaction@)),
{
    if transaction.source_stage.is_some() {
        return Err(
            Error::bad("This authentication transaction belongs to an embedded source stage"),
        );
    }
    Ok(())
}

/// The stored proof says that this session authenticated for this request.
pub open spec fn proof_stands(
    t: TxModel,
    key: Option<Seq<char>>,
    session_id: Seq<char>,
    request_hash: Seq<char>,
) -> Result<(), Failure> {
    let login = Failure::Oauth("login_required"@, "Complete request-bound reauthentication"@);
    if key is None || !t.authentication.dom().contains(key->0) {
        Err(login)
    } else {
        let a = t.authentication[key->0];
        if a.expires_at <= t.now || a.authenticated_session != Some(session_id) {
            Err(login)
        } else if a.request_hash != request_hash {
            Err(Failure::Bad("Authentication transaction belongs to another request"@))
        } else {
            Ok(())
        }
    }
}

/// What the rules outside the library say of an authorization.
pub struct Verdict {
    /// The scopes that the assurance rules make of the requested ones, where they accept.
    pub scopes: Option<Names>,
    /// The assurance rules ask for a stronger login.
    pub step_up: bool,
    /// The claims that the request asks for, where every policy accepts the identity.
    pub claims: Option<Json>,
    /// The session state that the relying party may watch.
    pub session_state: String,
}

/// What a [`Verdict`] holds.
pub struct VerdictModel {
    pub scopes: Option<Set<Seq<char>>>,
    pub step_up: bool,
    pub claims: Option<JsonModel>,
    pub session_state: Seq<char>,
}

impl View for Verdict {
    type V = VerdictModel;

    open spec fn view(&self) -> VerdictModel {
        VerdictModel {
            scopes: crate::table::opt_view(self.scopes),
            step_up: self.step_up,
            claims: crate::table::opt_view(self.claims),
            session_state: self.session_state@,
        }
    }
}

impl Row for Verdict {
    fn dup(&self) -> (r: Self) {
        Verdict {
            scopes: crate::table::dup_opt(&self.scopes),
            step_up: self.step_up,
            claims: crate::table::dup_opt(&self.claims),
            session_state: self.session_state.clone(),
        }
    }
}

/// Why a decision is refused, before anything is written.
pub open spec fn authorize_check(
    t: TxModel,
    s: SessionModel,
    r: AuthorizationModel,
    remembered: bool,
    key: Option<Seq<char>>,
    rules: RulesModel,
    v: VerdictModel,
) -> Result<(ClientModel, Set<Seq<char>>), Failure> {
    if s.expires_at <= t.now || s.revoked {
        Err(Failure::Unauthorized)
    } else {
        match authorization_check(t, r, rules, v.scopes) {
            Err(f) => Err(f),
            Ok((c, scopes)) => if rule_check(rules, "source_stage"@) is Err {
                Err(rule_check(rules, "source_stage"@)->Err_0)
            } else if prompts(r).contains("none"@) && !remembered {
                Err(Failure::Oauth("consent_required"@, "Explicit terminal consent is required"@))
            } else if needs_proof(t, s, r, v) && proof_stands(t, key, s.id, hash_of_request(r)) is Err {
                Err(proof_stands(t, key, s.id, hash_of_request(r))->Err_0)
            } else if url_of(r.redirect_uri) is None {
                Err(Failure::Bad("Invalid redirect URI"@))
            } else if r.decision == Some("deny"@) {
                and_also_value(rule_check(rules, "request_use"@), (c, scopes))
            } else if r.decision == Some("approve"@) {
                if v.claims is None {
                    Err(Failure::Refused("policy"@))
                } else {
                    and_also_value(rule_check(rules, "request_use"@), (c, scopes))
                }
            } else {
                Err(Failure::Bad("An explicit approve or deny decision is required"@))
            },
        }
    }
}

/// The value, where the check accepts.
pub open spec fn and_also_value<T>(check: Result<(), Failure>, value: T) -> Result<T, Failure> {
    match check {
        Ok(_) => Ok(value),
        Err(f) => Err(f),
    }
}

/// The decision needs a login that was made for this request.
pub open spec fn needs_proof(
    t: TxModel,
    s: SessionModel,
    r: AuthorizationModel,
    v: VerdictModel,
) -> bool {
    r.decision != Some("deny"@) && login_too_old(r, s.identity, v.step_up, t.now)
}

/// The code of an approved authorization.
pub open spec fn new_code(
    t: TxModel,
    c: ClientModel,
    s: SessionModel,
    r: AuthorizationModel,
    scopes: Set<Seq<char>>,
    claims: JsonModel,
) -> CodeModel {
    CodeModel {
        resource: r.resource,
        dpop_jkt: r.dpop_jkt,
        claims_request: claims,
        acr_values: r.acr_values,
        client_id: c.id,
        identity: s.identity,
        redirect_uri: r.redirect_uri,
        challenge: r.code_challenge,
        scopes,
        nonce: r.nonce,
        expires_at: extended(
            t.now,
            match c.settings.code_ttl {
                Some(x) => x,
                None => 120,
            },
        ),
        issued_family: None,
    }
}

/// The parameters that every answer to an authorization request starts with.
pub open spec fn answer_start(cfg: ConfigModel, c: ClientModel, r: AuthorizationModel) -> Seq<
    (Seq<char>, Seq<char>),
> {
    let iss = seq![("iss"@, issuer_of(cfg.issuer, c))];
    match r.state {
        Some(s) => seq![("state"@, s)] + iss,
        None => iss,
    }
}

/// The store after the proof of a fresh login was used.
pub open spec fn proof_used(
    t: TxModel,
    s: SessionModel,
    r: AuthorizationModel,
    key: Option<Seq<char>>,
    v: VerdictModel,
) -> TxModel {
    if needs_proof(t, s, r, v) {
        TxModel { authentication: t.authentication.remove(key->0), ..t }
    } else {
        t
    }
}

/// What a decision leaves in the store and answers: the redirect's parameters.
pub open spec fn authorized(
    t: TxModel,
    cfg: ConfigModel,
    s: SessionModel,
    r: AuthorizationModel,
    remembered: bool,
    key: Option<Seq<char>>,
    rules: RulesModel,
    v: VerdictModel,
) -> (TxModel, Result<Seq<(Seq<char>, Seq<char>)>, Failure>) {
    match authorize_check(t, s, r, remembered, key, rules, v) {
        Err(f) => (t, Err(f)),
        Ok((c, scopes)) => {
            let t1 = proof_used(t, s, r, key, v);
            if r.decision == Some("deny"@) {
                (
                    audited(t1, s.identity.user_id, "authorization.denied"@, c.id),
                    Ok(answer_start(cfg, c, r).push(("error"@, "access_denied"@))),
                )
            } else {
                let code = "ri_code_"@ + next_id(t1);
                let t2 = TxModel {
                    codes: t1.codes.insert(
                        digest_of(code),
                        new_code(t1, c, s, r, scopes, v.claims->0),
                    ),
                    ..drawn(t1)
                };
                (
                    audited(t2, s.identity.user_id, "authorization.approved"@, c.id),
                    Ok(
                        answer_start(cfg, c, r).push(("session_state"@, v.session_state)).push(
                            ("code"@, code),
                        ),
                    ),
                )
            }
        },
    }
}

/// Appends a parameter to an answer.
fn add_pair(pairs: &mut Vec<(String, String)>, key: &str, value: &str)
    ensures
        pair_texts(final(pairs)@) == pair_texts(old(pairs)@).push((key@, value@)),
{
    let ghost was = pair_texts(pairs@);
    pairs.push((key.to_owned(), value.to_owned()));
    assert(pair_texts(pairs@) =~= was.push((key@, value@)));
}

fn start_answer(core: &Core, client: &Client, request: &Authorization) -> (r: Vec<(String, String)>)
    ensures
        pair_texts(r@) == answer_start(core@.config, client@, request@),
{
    let mut pairs: Vec<(String, String)> = Vec::new();
    assert(pair_texts(pairs@) =~= Seq::<(Seq<char>, Seq<char>)>::empty());
    if let Some(state) = &request.state {
        add_pair(&mut pairs, "state", state.as_str());
    }
    add_pair(
        &mut pairs,
        "iss",
        crate::issuer::for_client(core.config.issuer.as_str(), client),
    );
    assert(pair_texts(pairs@) =~= answer_start(core@.config, client@, request@));
    pairs
}

impl Core {
    /// Decides an authorization for a session. Where the request needs a fresh login, `proof_key`
    /// names the stored proof that this session authenticated for this request, which is used up.
    pub fn authorize_session_proof(
        &self,
        tx: &mut Tx,
        session: &Session,
        request: &Authorization,
        remembered: bool,
        proof_key: Option<&str>,
        rules: &Rules,
        verdict: &Verdict,
    ) -> (r: Result<Vec<(String, String)>, Error>)
        ensures
            ({
                let out = authorized(
                    old(tx)@,
                    self@.config,
                    session@,
                    request@,
                    remembered,
                    opt_str(proof_key),
                    rules@,
                    verdict@,
                );
                &&& final(tx)@ == out.0
                &&& match out.1 {
                    Ok(p) => r is Ok && pair_texts(r->Ok_0@) == p,
                    Err(f) => fails(r, f),
                }
            }),
    {
        if session.expires_at <= tx.now || session.revoked {
            return Err(Error::Unauthorized);
        }
        let (client, scopes) = match validate_authorization(tx, request, rules, &verdict.scopes) {
            Ok(p) => p,
            Err(e) => return Err(e),
        };
        if let Err(e) = rules.check_rule("source_stage") {
            return Err(e);
        }
        if request.has_prompt("none") && !remembered {
            return Err(
                Error::oauth("consent_required", "Explicit terminal consent is required"),
            );
        }
        let deny = opt_is(&request.decision, "deny");
        let approve = opt_is(&request.decision, "approve");
        let fresh = !deny && needs_reauthentication(
            request,
            &session.identity,
            verdict.step_up,
            tx.now,
        );
        if fresh {
            let key = match proof_key {
                Some(k) => k,
                None => return Err(
                    Error::oauth("login_required", "Complete request-bound reauthentication"),
                ),
            };
            match tx.authentication.get(key) {
                None => return Err(
                    Error::oauth("login_required", "Complete request-bound reauthentication"),
                ),
                Some(a) => {
                    if a.expires_at <= tx.now || !opt_is(
                        &a.authenticated_session,
                        session.id.as_str(),
                    ) {
                        return Err(
                            Error::oauth(
                                "login_required",
                                "Complete request-bound reauthentication",
                            ),
                        );
                    }
                    let bound = request.request_hash();
                    if !same(a.request_hash.as_str(), bound.as_str()) {
                        return Err(
                            Error::bad("Authentication transaction belongs to another request"),
                        );
                    }
                },
            }
        }
        if parse_url(request.redirect_uri.as_str()).is_none() {
            return Err(Error::bad("Invalid redirect URI"));
        }
        if !deny && !approve {
            return Err(Error::bad("An explicit approve or deny decision is required"));
        }
        if !deny && verdict.claims.is_none() {
            return Err(Error::Refused("policy".to_owned()));
        }
        if let Err(e) = rules.check_rule("request_use") {
            return Err(e);
        }
        if fresh {
            if let Some(key) = proof_key {
                tx.authentication.delete(key);
            }
        }
        let mut pairs = start_answer(self, &client, request);
        if deny {
            add_pair(&mut pairs, "error", "access_denied");
            audit(
                tx,
                session.identity.user_id.as_str(),
                "authorization.denied",
                client.id.as_str(),
            );
            return Ok(pairs);
        }
        let claims = match &verdict.claims {
            Some(c) => c.dup(),
            None => Json::Null,
        };
        add_pair(&mut pairs, "session_state", verdict.session_state.as_str());
        let code = tx.random_token("ri_code_");
        let ttl: u64 = match client.settings.code_ttl {
            Some(x) => x,
            None => 120,
        };
        let row = Code {
            resource: copy_opt(&request.resource),
            dpop_jkt: copy_opt(&request.dpop_jkt),
            claims_request: claims,
            acr_values: copy_opt(&request.acr_values),
            client_id: client.id.clone(),
            identity: session.identity.dup(),
            redirect_uri: request.redirect_uri.clone(),
            challenge: request.code_challenge.clone(),
            scopes,
            nonce: copy_opt(&request.nonce),
            expires_at: tx.now.saturating_add(ttl),
            issued_family: None,
        };
        let key = digest(code.as_str());
        tx.codes.put(key.as_str(), row);
        add_pair(&mut pairs, "code", code.as_str());
        audit(
            tx,
            session.identity.user_id.as_str(),
            "authorization.approved",
            client.id.as_str(),
        );
        Ok(pairs)
    }

    /// Decides an authorization for a session; its transaction, if it names one, is the proof of a
    /// fresh login. The answer is the redirect that the browser follows.
    pub fn authorize(
        &self,
        tx: &mut Tx,
        session: &Session,
        request: &Authorization,
        rules: &Rules,
        verdict: &Verdict,
    ) -> (r: Result<String, Error>)
        ensures
            ({
                let key = match request@.transaction_id {
                    Some(x) => Some(digest_of(x)),
                    None => None,
                };
                let out = authorized(
                    old(tx)@,
                    self@.config,
                    session@,
                    request@,
                    false,
                    key,
                    rules@,
                    verdict@,
                );
                &&& final(tx)@ == out.0
                &&& match out.1 {
                    Ok(p) => r is Ok && url_with_pairs(request@.redirect_uri, p) == Some(
                        r->Ok_0@,
                    ),
                    Err(f) => fails(r, f),
                }
            }),
    {
        let key = match &request.transaction_id {
            Some(x) => Some(digest(x.as_str())),
            None => None,
        };
        let proof_key = match &key {
            Some(k) => Some(k.as_str()),
            None => None,
        };
        match self.authorize_session_proof(tx, session, request, false, proof_key, rules, verdict) {
            Err(e) => Err(e),
            Ok(pairs) => match append_query(request.redirect_uri.as_str(), &pairs) {
                Some(u) => Ok(u),
                None => Err(Error::bad("Invalid redirect URI")),
            },
        }
    }

    /// Denies an authorization without a session, for example from a signed-out browser.
    pub fn authorization_denied(
        &self,
        tx: &mut Tx,
        request: &Authorization,
        actor: &str,
        rules: &Rules,
        scopes: &Option<Names>,
    ) -> (r: Result<Vec<(String, String)>, Error>)
        ensures
            ({
                let out = denied_answer(
                    old(tx)@,
                    self@.config,
                    request@,
                    actor@,
                    rules@,
                    opt_view(*scopes),
                );
                final(tx)@ == out.0 && match out.1 {
                    Ok(p) => r is Ok && pair_texts(r->Ok_0@) == p,
                    Err(f) => fails(r, f),
                }
            }),
    {
        let (client, _) = match validate_authorization(tx, request, rules, scopes) {
            Ok(p) => p,
            Err(e) => return Err(e),
        };
        if parse_url(request.redirect_uri.as_str()).is_none() {
            return Err(Error::bad("Invalid redirect URI"));
        }
        if let Err(e) = rules.check_rule("request_use") {
            return Err(e);
        }
        let mut pairs = start_answer(self, &client, request);
        add_pair(&mut pairs, "error", "access_denied");
        audit(tx, actor, "authorization.denied", client.id.as_str());
        Ok(pairs)
    }
}

/// A code is only ever made for a live session, for scopes that include `openid`, and bound to the
/// challenge of the request; denying makes none.
pub proof fn codes_come_from_live_sessions(
    t: TxModel,
    cfg: ConfigModel,
    s: SessionModel,
    r: AuthorizationModel,
    remembered: bool,
    key: Option<Seq<char>>,
    rules: RulesModel,
    v: VerdictModel,
)
    requires
        authorized(t, cfg, s, r, remembered, key, rules, v).0.codes != t.codes,
    ensures
        s.expires_at > t.now,
        !s.revoked,
        r.decision == Some("approve"@),
        v.scopes is Some && (v.scopes->0).contains("openid"@),
        ({
            let u = authorized(t, cfg, s, r, remembered, key, rules, v).0;
            let code = digest_of("ri_code_"@ + next_id(t));
            u.codes.dom().contains(code) && u.codes[code].challenge == r.code_challenge && u.codes[code].identity
                == s.identity
        }),
{
}

/// Proxy clients redeem their codes in process only.
pub open spec fn proxy_client_check(
    t: TxModel,
    r: TokenRequestModel,
    verified: Option<AssertionClaimsModel>,
) -> Result<(), Failure> {
    if given(r.client_id) && t.clients.dom().contains(r.client_id->0)
        && t.clients[r.client_id->0].settings.proxy is Some {
        if authenticates(t, r, false, verified) {
            Err(
                Failure::Oauth(
                    "unauthorized_client"@,
                    "Proxy clients are redeemed only by riAuth's outpost"@,
                ),
            )
        } else {
            Err(client_failure())
        }
    } else {
        Ok(())
    }
}

pub fn reject_proxy_client(
    tx: &Tx,
    request: &TokenRequest,
    verified: &Option<AssertionClaims>,
) -> (r: Result<(), Error>)
    ensures
        agrees(r, proxy_client_check(tx@, request@, opt_view(*verified))),
{
    let proxied = match &request.client_id {
        Some(cid) => {
            if cid.as_str().is_empty() {
                false
            } else {
                match tx.clients.get(cid.as_str()) {
                    Some(c) => c.settings.proxy.is_some(),
                    None => false,
                }
            }
        },
        None => false,
    };
    if !proxied {
        return Ok(());
    }
    match check_client(tx, request, false, verified) {
        Err(e) => Err(e),
        Ok(_) => Err(
            Error::oauth(
                "unauthorized_client",
                "Proxy clients are redeemed only by riAuth's outpost",
            ),
        ),
    }
}

/// The grant that a token request names.
pub enum GrantKind {
    AuthorizationCode,
    Device,
    Refresh,
    ClientCredentials,
    Exchange,
    Machine,
}

/// A grant of this kind gets a refresh token, where it has offline access.
pub open spec fn refreshed_kind(k: GrantKind) -> bool {
    k == GrantKind::AuthorizationCode || k == GrantKind::Device || k == GrantKind::Refresh
}

pub fn refreshes(kind: &GrantKind) -> (r: bool)
    ensures
        r == refreshed_kind(*kind),
{
    match kind {
        GrantKind::AuthorizationCode => true,
        GrantKind::Device => true,
        GrantKind::Refresh => true,
        GrantKind::ClientCredentials => false,
        GrantKind::Exchange => false,
        GrantKind::Machine => false,
    }
}

/// Which grant a token request names, or why it is not served.
pub open spec fn grant_kind(
    t: TxModel,
    r: TokenRequestModel,
    verified: Option<AssertionClaimsModel>,
) -> Result<GrantKind, Failure> {
    if r.audience is Some && r.grant_type != TOKEN_EXCHANGE@ {
        Err(invalid_target())
    } else if !r.outpost_internal && proxy_client_check(t, r, verified) is Err {
        Err(proxy_client_check(t, r, verified)->Err_0)
    } else if r.grant_type == "authorization_code"@ {
        Ok(GrantKind::AuthorizationCode)
    } else if r.grant_type == DEVICE_GRANT@ {
        Ok(GrantKind::Device)
    } else if r.grant_type == "refresh_token"@ {
        Ok(GrantKind::Refresh)
    } else if r.grant_type == "client_credentials"@ {
        Ok(GrantKind::ClientCredentials)
    } else if r.grant_type == TOKEN_EXCHANGE@ {
        Ok(GrantKind::Exchange)
    } else if r.grant_type == JWT_GRANT@ {
        Ok(GrantKind::Machine)
    } else {
        Err(
            Failure::Oauth(
                "unsupported_grant_type"@,
                "Supported grants: authorization_code, device_code, refresh_token, client_credentials"@,
            ),
        )
    }
}

impl Core {
    /// Which of the grants serves a token request.
    pub fn token_with(&self, tx: &Tx, request: &TokenRequest, verified: &Option<AssertionClaims>) -> (r: Result<
        GrantKind,
        Error,
    >)
        ensures
            match grant_kind(tx@, request@, opt_view(*verified)) {
                Ok(k) => r == Ok::<GrantKind, Error>(k),
                Err(f) => fails(r, f),
            },
    {
        let kind = request.grant_type.as_str();
        if request.audience.is_some() && !same(kind, TOKEN_EXCHANGE) {
            return Err(crate::resource::invalid());
        }
        if !request.outpost_internal {
            if let Err(e) = reject_proxy_client(tx, request, verified) {
                return Err(e);
            }
        }
        if same(kind, "authorization_code") {
            Ok(GrantKind::AuthorizationCode)
        } else if same(kind, DEVICE_GRANT) {
            Ok(GrantKind::Device)
        } else if same(kind, "refresh_token") {
            Ok(GrantKind::Refresh)
        } else if same(kind, "client_credentials") {
            Ok(GrantKind::ClientCredentials)
        } else if same(kind, TOKEN_EXCHANGE) {
            Ok(GrantKind::Exchange)
        } else if same(kind, JWT_GRANT) {
            Ok(GrantKind::Machine)
        } else {
            Err(
                Error::oauth(
                    "unsupported_grant_type",
                    "Supported grants: authorization_code, device_code, refresh_token, client_credentials",
                ),
            )
        }
    }
}

/// The values of the parameter `name`, in order.
pub open spec fn values_of(pairs: Seq<(Seq<char>, Seq<char>)>, name: Seq<char>) -> Seq<Seq<char>>
    decreases pairs.len(),
{
    if pairs.len() == 0 {
        Seq::empty()
    } else {
        let rest = values_of(pairs.drop_last(), name);
        if pairs.last().0 == name {
            rest.push(pairs.last().1)
        } else {
            rest
        }
    }
}

/// The value of a parameter that occurs once and is not empty.
pub open spec fn unique_value(pairs: Seq<(Seq<char>, Seq<char>)>, name: Seq<char>) -> Option<Seq<char>> {
    let v = values_of(pairs, name);
    if v.len() == 1 && v[0].len() > 0 {
        Some(v[0])
    } else {
        None
    }
}

pub fn unique(pairs: &Vec<(String, String)>, name: &str) -> (r: Option<String>)
    ensures
        opt_text(r) == unique_value(pair_texts(pairs@), name@),
{
    let ghost all = pair_texts(pairs@);
    let mut found: Vec<String> = Vec::new();
    let mut i: usize = 0;
    assert(all.take(0) =~= Seq::<(Seq<char>, Seq<char>)>::empty());
    assert(texts(found@) =~= values_of(all.take(0), name@));
    while i < pairs.len()
        invariant
            i <= pairs.len(),
            all == pair_texts(pairs@),
            texts(found@) == values_of(all.take(i as int), name@),
        decreases pairs.len() - i,
    {
        let ghost was = texts(found@);
        proof {
            assert(all.take(i + 1).drop_last() =~= all.take(i as int));
            assert(all.take(i + 1).last() == (pairs@[i as int].0@, pairs@[i as int].1@));
        }
        if same(pairs[i].0.as_str(), name) {
            found.push(pairs[i].1.clone());
            assert(texts(found@) =~= was.push(pairs@[i as int].1@));
        }
        i = i + 1;
    }
    assert(all.take(i as int) =~= all);
    assert(texts(found@).len() == found.len());
    if found.len() == 1 && !found[0].as_str().is_empty() {
        assert(texts(found@)[0] == found@[0]@);
        Some(found[0].clone())
    } else {
        None
    }
}

/// Where an authorization error is reported to: only at a redirect that the client registered.
pub open spec fn error_answer(
    t: TxModel,
    cfg: ConfigModel,
    pairs: Seq<(Seq<char>, Seq<char>)>,
    code: Seq<char>,
    message: Seq<char>,
) -> Option<(Seq<char>, Seq<(Seq<char>, Seq<char>)>)> {
    let cid = unique_value(pairs, "client_id"@);
    let uri = unique_value(pairs, "redirect_uri"@);
    if cid is None || uri is None || !t.clients.dom().contains(cid->0) || !redirect_registered(
        t.clients[cid->0],
        uri->0,
    ) {
        None
    } else {
        let start = seq![("error"@, code), ("error_description"@, message)];
        let state = unique_value(pairs, "state"@);
        let with_state = if state is Some && byte_count(state->0) <= 512 {
            start.push(("state"@, state->0))
        } else {
            start
        };
        Some((uri->0, with_state.push(("iss"@, issuer_of(cfg.issuer, t.clients[cid->0])))))
    }
}

impl Core {
    /// The redirect and the parameters that report an error to the client, where it can be told.
    pub fn authorization_error(
        &self,
        tx: &Tx,
        pairs: &Vec<(String, String)>,
        code: &str,
        message: &str,
    ) -> (r: Option<(String, Vec<(String, String)>)>)
        ensures
            match error_answer(tx@, self@.config, pair_texts(pairs@), code@, message@) {
                Some(a) => r is Some && (r->0).0@ == a.0 && pair_texts((r->0).1@) == a.1,
                None => r is None,
            },
    {
        let cid = match unique(pairs, "client_id") {
            Some(c) => c,
            None => return None,
        };
        let uri = match unique(pairs, "redirect_uri") {
            Some(c) => c,
            None => return None,
        };
        let client = match tx.clients.get(cid.as_str()) {
            Some(c) => c,
            None => return None,
        };
        if !redirect_matches(client, uri.as_str()) {
            return None;
        }
        let mut answer: Vec<(String, String)> = Vec::new();
        assert(pair_texts(answer@) =~= Seq::<(Seq<char>, Seq<char>)>::empty());
        add_pair(&mut answer, "error", code);
        add_pair(&mut answer, "error_description", message);
        assert(pair_texts(answer@) =~= seq![("error"@, code@), ("error_description"@, message@)]);
        if let Some(state) = unique(pairs, "state") {
            if byte_len(state.as_str()) <= 512 {
                add_pair(&mut answer, "state", state.as_str());
            }
        }
        add_pair(
            &mut answer,
            "iss",
            crate::issuer::for_client(self.config.issuer.as_str(), client),
        );
        Some((uri, answer))
    }
}

impl Core {
    /// Which of the grants serves a token request.
    pub fn token(&self, tx: &Tx, request: &TokenRequest) -> (r: Result<
        GrantKind,
        Error,
    >)
        ensures
            exists|v: Option<AssertionClaimsModel>| #[trigger] claims_offered(tx@, request@, v) && (match grant_kind(tx@, request@, v) {
                Ok(k) => r == Ok::<GrantKind, Error>(k),
                Err(f) => fails(r, f),
            }),
    {
        let verified = read_assertion(tx, request);
        assert(claims_offered(tx@, request@, opt_view(verified)));
        self.token_with(tx, request, &verified)
    }
}

/// What an approval gives. The answer carries the state of the request, the issuer of the client, the
/// state of the session and a code; and the code that is kept stands for this request: its client, its
/// address, its challenge, its nonce, its resource and key, the scopes that the rules made of its scopes,
/// and the login that approved it, for two minutes or as long as the client says.
pub proof fn approvals_give_a_code_for_the_request(
    t: TxModel,
    cfg: ConfigModel,
    s: SessionModel,
    r: AuthorizationModel,
    remembered: bool,
    key: Option<Seq<char>>,
    rules: RulesModel,
    v: VerdictModel,
)
    requires
        authorized(t, cfg, s, r, remembered, key, rules, v).1 is Ok,
        r.decision == Some("approve"@),
    ensures
        ({
            let out = authorized(t, cfg, s, r, remembered, key, rules, v);
            let p = out.1->Ok_0;
            let n = p.len();
            let code = p[n - 1].1;
            let kept = out.0.codes[digest_of(code)];
            let c = t.clients[r.client_id];
            let ttl = if c.settings.code_ttl is Some {
                c.settings.code_ttl->0
            } else {
                120
            };
            let issuer = if c.settings.issuer is Some {
                c.settings.issuer->0
            } else {
                cfg.issuer
            };
            &&& n == if r.state is Some {
                4int
            } else {
                3int
            }
            &&& r.state is Some ==> p[0] == ("state"@, r.state->0)
            &&& p[n - 3] == ("iss"@, issuer)
            &&& p[n - 2] == ("session_state"@, v.session_state)
            &&& p[n - 1].0 == "code"@
            &&& out.0.codes.dom().contains(digest_of(code))
            &&& kept.client_id == c.id
            &&& kept.redirect_uri == r.redirect_uri
            &&& kept.challenge == r.code_challenge
            &&& kept.nonce == r.nonce
            &&& kept.resource == r.resource
            &&& kept.dpop_jkt == r.dpop_jkt
            &&& kept.acr_values == r.acr_values
            &&& kept.scopes == v.scopes->0
            &&& kept.claims_request == v.claims->0
            &&& kept.identity == s.identity
            &&& kept.issued_family is None
            &&& t.now + ttl <= u64::MAX ==> kept.expires_at == t.now + ttl
            &&& out.0.audit.last() == (AuditModel {
                actor: s.identity.user_id,
                action: "authorization.approved"@,
                target: c.id,
            })
        }),
{
    reveal_strlit("approve");
    reveal_strlit("deny");
    assert("approve"@.len() == 7 && "deny"@.len() == 4);
}

/// What a denial gives: the error, for the state and from the issuer of the request, and no code.
pub proof fn denials_give_no_code(
    t: TxModel,
    cfg: ConfigModel,
    s: SessionModel,
    r: AuthorizationModel,
    remembered: bool,
    key: Option<Seq<char>>,
    rules: RulesModel,
    v: VerdictModel,
)
    requires
        authorized(t, cfg, s, r, remembered, key, rules, v).1 is Ok,
        r.decision == Some("deny"@),
    ensures
        ({
            let out = authorized(t, cfg, s, r, remembered, key, rules, v);
            let p = out.1->Ok_0;
            let n = p.len();
            &&& n == if r.state is Some {
                3int
            } else {
                2int
            }
            &&& r.state is Some ==> p[0] == ("state"@, r.state->0)
            &&& p[n - 2].0 == "iss"@
            &&& p[n - 1] == ("error"@, "access_denied"@)
            &&& out.0.codes == t.codes
            &&& out.0.audit.last().action == "authorization.denied"@
        }),
{
}

/// A request that is in order is approved where it should be: the client takes users and this
/// address, asks for a code with a challenge, the session lives, the login is fresh enough, and the
/// policies accept.
pub proof fn orderly_requests_are_approved(
    t: TxModel,
    cfg: ConfigModel,
    s: SessionModel,
    r: AuthorizationModel,
    rules: RulesModel,
    v: VerdictModel,
)
    requires
        s.expires_at > t.now && !s.revoked,
        t.clients.dom().contains(r.client_id),
        ({
            let c = t.clients[r.client_id];
            &&& c.enabled && !c.service
            &&& c.settings.allowed_grants.contains("authorization_code"@)
            &&& c.redirect_uris.contains(r.redirect_uri)
            &&& requested_scopes(r.scope, c) is Ok
        }),
        r.response_type == "code"@,
        r.response_mode is None,
        r.dpop_jkt is None,
        r.code_challenge_method == "S256"@,
        byte_count(r.code_challenge) == 43,
        base64url_bytes(r.code_challenge) matches Some(b) && b.len() == 32,
        r.state is None || byte_count(r.state->0) <= 512,
        r.nonce is None || byte_count(r.nonce->0) <= 512,
        r.prompt is None,
        r.max_age is None,
        r.resource is None,
        r.decision == Some("approve"@),
        url_of(r.redirect_uri) is Some,
        rules.refused == Set::<Seq<char>>::empty(),
        v.scopes is Some && (v.scopes->0).contains("openid"@),
        !v.step_up,
        v.claims is Some,
    ensures
        authorized(t, cfg, s, r, false, None, rules, v).1 is Ok,
{
    reveal_strlit("");
    reveal_strlit("approve");
    reveal_strlit("deny");
    reveal_strlit("none");
    reveal_strlit("login");
    reveal_strlit("select_account");
    let list = prompts(r);
    assert("approve"@.len() == 7 && "deny"@.len() == 4);
    assert(""@ =~= Seq::<char>::empty());
    reveal_with_fuel(crate::text::parts, 2);
    assert(list =~= seq![Seq::<char>::empty()]);
    assert(list.filter(|p: Seq<char>| p.len() > 0) =~= Seq::<Seq<char>>::empty()) by {
        reveal_with_fuel(Seq::filter, 3);
        assert(list.drop_last() =~= Seq::<Seq<char>>::empty());
        assert(list.last() =~= Seq::<char>::empty());
    }
    assert("none"@.len() == 4 && "login"@.len() == 5 && "select_account"@.len() == 14);
}

/// What a request needs. Whatever is approved, the client is enabled and takes users, its address
/// is registered, the response is a code with an S256 challenge, and openid is among the scopes.
pub proof fn approvals_need_an_orderly_request(
    t: TxModel,
    cfg: ConfigModel,
    s: SessionModel,
    r: AuthorizationModel,
    remembered: bool,
    key: Option<Seq<char>>,
    rules: RulesModel,
    v: VerdictModel,
)
    requires
        authorized(t, cfg, s, r, remembered, key, rules, v).1 is Ok,
    ensures
        t.clients.dom().contains(r.client_id),
        t.clients[r.client_id].enabled && !t.clients[r.client_id].service,
        redirect_registered(t.clients[r.client_id], r.redirect_uri),
        r.response_type == "code"@,
        r.code_challenge_method == "S256"@,
        base64url_bytes(r.code_challenge) matches Some(b) && b.len() == 32,
        requested_scopes(r.scope, t.clients[r.client_id]) is Ok,
        s.expires_at > t.now && !s.revoked,
        r.decision == Some("approve"@) || r.decision == Some("deny"@),
        prompts(r).contains("none"@) ==> remembered,
        r.decision == Some("approve"@) && r.max_age is Some && r.max_age->0 > 0 && t.now
            - s.identity.auth_time > r.max_age->0 ==> key is Some && t.authentication.dom().contains(
            key->0,
        ) && t.authentication[key->0].authenticated_session == Some(s.id)
            && t.authentication[key->0].request_hash == hash_of_request(r)
            && t.authentication[key->0].expires_at > t.now,
{
    reveal_strlit("approve");
    reveal_strlit("deny");
    assert("approve"@.len() == 7 && "deny"@.len() == 4);
}

/// Each grant type is served as what it names.
pub proof fn grant_types_are_served_by_name(
    t: TxModel,
    r: TokenRequestModel,
    verified: Option<AssertionClaimsModel>,
)
    requires
        r.outpost_internal,
        r.audience is None || r.grant_type == "urn:ietf:params:oauth:grant-type:token-exchange"@,
    ensures
        grant_kind(t, r, verified) == Ok::<GrantKind, Failure>(GrantKind::AuthorizationCode) <==> r.grant_type
            == "authorization_code"@,
        grant_kind(t, r, verified) == Ok::<GrantKind, Failure>(GrantKind::Device) <==> r.grant_type
            == "urn:ietf:params:oauth:grant-type:device_code"@,
        grant_kind(t, r, verified) == Ok::<GrantKind, Failure>(GrantKind::Refresh) <==> r.grant_type
            == "refresh_token"@,
        grant_kind(t, r, verified) == Ok::<GrantKind, Failure>(GrantKind::ClientCredentials) <==> r.grant_type
            == "client_credentials"@,
        grant_kind(t, r, verified) == Ok::<GrantKind, Failure>(GrantKind::Exchange) <==> r.grant_type
            == "urn:ietf:params:oauth:grant-type:token-exchange"@,
        grant_kind(t, r, verified) == Ok::<GrantKind, Failure>(GrantKind::Machine) <==> r.grant_type
            == "urn:ietf:params:oauth:grant-type:jwt-bearer"@,
{
    reveal_strlit("authorization_code");
    reveal_strlit("urn:ietf:params:oauth:grant-type:device_code");
    reveal_strlit("refresh_token");
    reveal_strlit("client_credentials");
    reveal_strlit("urn:ietf:params:oauth:grant-type:token-exchange");
    reveal_strlit("urn:ietf:params:oauth:grant-type:jwt-bearer");
    assert("authorization_code"@.len() == 18 && "authorization_code"@[0] == 'a');
    assert("refresh_token"@.len() == 13);
    assert("client_credentials"@.len() == 18 && "client_credentials"@[0] == 'c');
    assert("urn:ietf:params:oauth:grant-type:device_code"@.len() == 44);
    assert("urn:ietf:params:oauth:grant-type:token-exchange"@.len() == 47);
    assert("urn:ietf:params:oauth:grant-type:jwt-bearer"@.len() == 43);
}

/// An error is sent back only to a registered address of a known client, with the state of the request
/// and the issuer of the client.
pub proof fn errors_go_to_registered_addresses(
    t: TxModel,
    cfg: ConfigModel,
    pairs: Seq<(Seq<char>, Seq<char>)>,
    code: Seq<char>,
    message: Seq<char>,
)
    requires
        error_answer(t, cfg, pairs, code, message) is Some,
    ensures
        ({
            let out = error_answer(t, cfg, pairs, code, message)->0;
            let cid = unique_value(pairs, "client_id"@)->0;
            let c = t.clients[cid];
            let state = unique_value(pairs, "state"@);
            &&& t.clients.dom().contains(cid)
            &&& redirect_registered(c, out.0)
            &&& Some(out.0) == unique_value(pairs, "redirect_uri"@)
            &&& out.1[0] == ("error"@, code)
            &&& out.1[1] == ("error_description"@, message)
            &&& state is Some && byte_count(state->0) <= 512 ==> out.1[2] == ("state"@, state->0)
            &&& out.1.last() == (
                "iss"@,
                if c.settings.issuer is Some {
                    c.settings.issuer->0
                } else {
                    cfg.issuer
                },
            )
        }),
{
}

/// What a denial of a valid request is answered: that access was denied.
pub open spec fn denied_answer(
    t: TxModel,
    cfg: ConfigModel,
    r: AuthorizationModel,
    actor: Seq<char>,
    rules: RulesModel,
    scopes: Option<Set<Seq<char>>>,
) -> (TxModel, Result<Seq<(Seq<char>, Seq<char>)>, Failure>) {
    match authorization_check(t, r, rules, scopes) {
        Err(f) => (t, Err(f)),
        Ok((c, _)) => if url_of(r.redirect_uri) is None {
            (t, Err(Failure::Bad("Invalid redirect URI"@)))
        } else {
            match rule_check(rules, "request_use"@) {
                Err(f) => (t, Err(f)),
                Ok(_) => (
                    audited(t, actor, "authorization.denied"@, c.id),
                    Ok(answer_start(cfg, c, r).push(("error"@, "access_denied"@))),
                ),
            }
        },
    }
}

/// A denied request gives its client the state that it came with, the issuer, and that access was denied;
/// nothing is issued.
pub proof fn denied_requests_are_told_so(
    t: TxModel,
    cfg: ConfigModel,
    r: AuthorizationModel,
    actor: Seq<char>,
    rules: RulesModel,
    scopes: Option<Set<Seq<char>>>,
)
    requires
        denied_answer(t, cfg, r, actor, rules, scopes).1 is Ok,
    ensures
        ({
            let out = denied_answer(t, cfg, r, actor, rules, scopes);
            let p = out.1->Ok_0;
            let c = t.clients[r.client_id];
            &&& p.last() == ("error"@, "access_denied"@)
            &&& r.state is Some ==> p[0] == ("state"@, r.state->0)
            &&& p[p.len() - 2] == (
                "iss"@,
                if c.settings.issuer is Some {
                    c.settings.issuer->0
                } else {
                    cfg.issuer
                },
            )
            &&& redirect_registered(c, r.redirect_uri)
            &&& out.0.codes == t.codes && out.0.sessions == t.sessions
            &&& out.0.audit.last().actor == actor && out.0.audit.last().action
                == "authorization.denied"@
        }),
{
}

/// A proof of a login stands for the session and the request that it was made for, until it is over.
pub proof fn proofs_stand_for_one_request(
    t: TxModel,
    key: Option<Seq<char>>,
    session_id: Seq<char>,
    request_hash: Seq<char>,
)
    ensures
        proof_stands(t, key, session_id, request_hash) is Ok <==> {
            &&& key is Some
            &&& t.authentication.dom().contains(key->0)
            &&& t.authentication[key->0].expires_at > t.now
            &&& t.authentication[key->0].authenticated_session == Some(session_id)
            &&& t.authentication[key->0].request_hash == request_hash
        },
{
}

/// Codes of a proxy's client are not redeemed by anybody else.
pub proof fn proxied_codes_stay_with_the_proxy(
    t: TxModel,
    r: TokenRequestModel,
    verified: Option<AssertionClaimsModel>,
)
    ensures
        r.client_id is Some && (r.client_id->0).len() > 0 && t.clients.dom().contains(r.client_id->0) ==> (
        proxy_client_check(t, r, verified) is Ok <==> t.clients[r.client_id->0].settings.proxy is None),
        r.client_id is None ==> proxy_client_check(t, r, verified) is Ok,
{
}

/// A request may ask for prompts that are known, and for none of them only alone.
pub proof fn prompts_are_known(list: Seq<Seq<char>>, p: Seq<char>)
    requires
        prompts_allowed(list),
        list.contains(p),
        p.len() > 0,
    ensures
        p == "none"@ || p == "login"@ || p == "consent"@ || p == "select_account"@,
        p == "none"@ ==> forall|q: Seq<char>| #[trigger] list.contains(q) && q.len() > 0 ==> q == p,
{
    let f = |x: Seq<char>| x.len() > 0;
    let asked = list.filter(f);
    let i = list.index_of(p);
    list.lemma_filter_contains(f, i);
    assert(asked.contains(list[i]));
    let k = asked.index_of(p);
    assert(asked[k] == p);
    assert forall|q: Seq<char>| p == "none"@ && #[trigger] list.contains(q) && q.len() > 0 implies q == p by {
        let j = list.index_of(q);
        list.lemma_filter_contains(f, j);
        let m = asked.index_of(q);
        assert(asked[m] == q);
        assert(asked.len() == 1);
    }
}

/// Grants that come of a user's login are refreshed; a service's own are not.
pub proof fn user_grants_are_refreshed(k: GrantKind)
    ensures
        refreshed_kind(GrantKind::AuthorizationCode),
        refreshed_kind(GrantKind::Device),
        refreshed_kind(GrantKind::Refresh),
        refreshed_kind(k) ==> k == GrantKind::AuthorizationCode || k == GrantKind::Device || k
            == GrantKind::Refresh,
{
}

/// Whoever authenticates as a proxy's client is told that only the proxy redeems its codes; whoever does
/// not is told nothing of that.
pub proof fn proxied_clients_are_told_when_they_authenticate(
    t: TxModel,
    r: TokenRequestModel,
    verified: Option<AssertionClaimsModel>,
)
    requires
        r.client_id is Some,
        t.clients.dom().contains(r.client_id->0),
        t.clients[r.client_id->0].settings.proxy is Some,
        (r.client_id->0).len() > 0,
    ensures
        authenticates(t, r, false, verified) ==> proxy_client_check(t, r, verified) == Err::<(), Failure>(
            Failure::Oauth("unauthorized_client"@, "Proxy clients are redeemed only by riAuth's outpost"@),
        ),
        !authenticates(t, r, false, verified) ==> proxy_client_check(t, r, verified) == Err::<(), Failure>(
            Failure::Reply(401, "invalid_client"@, "Client authentication failed"@),
        ),
{
}

/// A request is taken only within its bounds: a short state and nonce, a proper challenge and key, a
/// known way to answer, and scopes of the client with a login among them.
pub proof fn requests_stay_within_their_bounds(
    t: TxModel,
    r: AuthorizationModel,
    rules: RulesModel,
    scopes: Option<Set<Seq<char>>>,
)
    requires
        authorization_check(t, r, rules, scopes) is Ok,
    ensures
        ({
            let c = t.clients[r.client_id];
            &&& t.clients.dom().contains(r.client_id) && c.enabled && !c.service
            &&& c.settings.allowed_grants.len() > 0 ==> c.settings.allowed_grants.contains(
                "authorization_code"@,
            )
            &&& r.state is Some ==> byte_count(r.state->0) <= 512
            &&& r.nonce is Some ==> byte_count(r.nonce->0) <= 512
            &&& byte_count(r.code_challenge) == 43 && (base64url_bytes(r.code_challenge) matches Some(b)
                && b.len() == 32)
            &&& r.dpop_jkt matches Some(k) ==> byte_count(k) == 43 && (base64url_bytes(k) matches Some(b)
                && b.len() == 32)
            &&& r.response_mode is Some ==> rules.response_modes.contains(r.response_mode->0)
            &&& scopes is Some && (scopes->0).contains("openid"@)
            &&& resource_check(c, r.resource, scopes->0) is Ok
            &&& byte_count(r.scope) <= 2048
            &&& authorization_check(t, r, rules, scopes)->Ok_0 == (c, scopes->0)
        }),
{
}

} // verus!
