//! The end of a session that a relying party asks for, and the deliveries that are due.
use crate::engine::{Core, audit, audited, extended};
use crate::error::{Error, Failure, agrees_with, copy_error, fails, opt_failure};
use crate::issuer::issuer_of;
use crate::jose::{Algorithm, AssertionClaims, AssertionClaimsModel, ClaimRules, ClaimRulesModel, PublicJwk, PublicJwkModel, PublicJwks, TokenHeader, TokenHeaderModel, addressed, decodable, decode_token_claims, decode_token_header, key_for, meets, signed_by, token_claims, token_header};
use crate::json::{Json, JsonModel, Member, lemma_members_of, member, members_of, text};
use crate::keyring::client_keys;
use crate::logout::{LogoutRequest, LogoutRequestModel, RpSession, RpSessionModel, SelectionModel, ended_all, queue_session, queued};
use crate::model::{AuditModel, Session, SessionModel};
use crate::names::in_order;
use crate::outside::{digest, digest_of};
use crate::radius::enrollment::judge;
use crate::store::{Tx, TxModel};
use crate::table::{Row, opt_view, rows_in, views};
use crate::text::{byte_count, byte_len, opt_is, opt_text, same, texts};
use crate::logout::{Delivery, DeliveryModel};
use crate::jose::judge_now;
use vstd::prelude::*;
use vstd::string::*;

verus! {

pub open spec fn algorithm_name(a: Algorithm) -> Seq<char> {
    match a {
        Algorithm::RS256 => "RS256"@,
        Algorithm::ES256 => "ES256"@,
        Algorithm::EdDSA => "EdDSA"@,
    }
}

pub open spec fn hint_failure() -> Failure {
    Failure::Bad("Invalid ID token hint"@)
}

/// The published key that a hint must verify under: of its id and its algorithm.
pub open spec fn hint_key(h: Option<TokenHeaderModel>, keys: Seq<PublicJwkModel>) -> Option<
    PublicJwkModel,
> {
    match h {
        None => None,
        Some(x) => if x.algorithm is None || (x.typ != Some("JWT"@) && x.typ != Some(
            "dpop+id_token"@,
        )) || x.kid is None {
            None
        } else {
            match key_for(keys, x.kid->0) {
                Some(k) => if k.alg == algorithm_name(x.algorithm->0) {
                    Some(k)
                } else {
                    None
                },
                None => None,
            }
        },
    }
}

/// Finds the published key that a hint with this header must verify under.
pub fn find_hint_key<'a>(header: &Option<TokenHeader>, keys: &'a PublicJwks) -> (r: Option<
    &'a PublicJwk,
>)
    ensures
        match hint_key(opt_view(*header), keys@.keys) {
            Some(k) => r is Some && r->0@ == k,
            None => r is None,
        },
{
    let h = match header {
        None => return None,
        Some(h) => h,
    };
    let name = match h.algorithm {
        None => return None,
        Some(Algorithm::RS256) => "RS256",
        Some(Algorithm::ES256) => "ES256",
        Some(Algorithm::EdDSA) => "EdDSA",
    };
    if !opt_is(&h.typ, "JWT") && !opt_is(&h.typ, "dpop+id_token") {
        return None;
    }
    let kid = match &h.kid {
        None => return None,
        Some(k) => k.as_str(),
    };
    match keys.find(kid) {
        None => None,
        Some(k) => if same(k.alg.as_str(), name) {
            Some(k)
        } else {
            None
        },
    }
}

/// The issuer that a hint must name: that of the client whose audience its unverified payload has.
pub open spec fn hint_issuer(t: TxModel, shared: Seq<char>, payload: AssertionClaimsModel) -> Option<
    Seq<char>,
> {
    match payload.aud {
        None => None,
        Some(cid) => if t.clients.dom().contains(cid) {
            Some(issuer_of(shared, t.clients[cid]))
        } else {
            None
        },
    }
}

/// The claims of a hint: issued by now, with an expiry that may have passed.
pub open spec fn hint_claims_ok(c: AssertionClaimsModel, now: u64) -> bool {
    c.iat is Some && c.iat->0 <= extended(now, 60) && c.exp is Some
}

/// A hint can be verified: a published key fits it, its payload parses and its client is known.
pub open spec fn usable_hint(
    t: TxModel,
    shared: Seq<char>,
    keys: Seq<PublicJwkModel>,
    token: Seq<char>,
) -> bool {
    hint_key(token_header(token), keys) is Some && decodable(hint_key(token_header(token), keys)->0) && (
    token_claims(token) matches Some(c) && hint_issuer(t, shared, c) is Some)
}

/// What the claims of a hint are held to. It may have expired, and the clocks may differ by a minute.
pub open spec fn hint_rules_of(issuer: Seq<char>) -> ClaimRulesModel {
    ClaimRulesModel {
        issuer,
        audience: None,
        required: seq!["exp"@],
        expiring: false,
        starting: true,
        leeway: 60,
    }
}

pub fn hint_rules(issuer: &str) -> (r: ClaimRules)
    ensures
        r@ == hint_rules_of(issuer@),
{
    let mut required: Vec<String> = Vec::new();
    required.push("exp".to_owned());
    assert(texts(required@) =~= seq!["exp"@]);
    ClaimRules {
        issuer: issuer.to_owned(),
        audience: None,
        required,
        expiring: false,
        starting: true,
        leeway: 60,
    }
}

/// What a hint comes to, where `accepted` says whether its signature and its claims stand at the
/// time.
pub open spec fn hint_result(
    t: TxModel,
    shared: Seq<char>,
    keys: Seq<PublicJwkModel>,
    token: Seq<char>,
    accepted: bool,
) -> Result<AssertionClaimsModel, Failure> {
    match token_claims(token) {
        None => Err(hint_failure()),
        Some(c) => if usable_hint(t, shared, keys, token) && accepted && hint_claims_ok(c, t.now) {
            Ok(c)
        } else {
            Err(hint_failure())
        },
    }
}

/// What a hint comes to, where `accepted` says whether its signature and its claims stand at the time.
pub fn finish_hint(tx: &Tx, token: &str, shared: &str, keys: &PublicJwks, accepted: bool) -> (r: Result<
    AssertionClaims,
    Error,
>)
    ensures
        agrees_with(r, hint_result(tx@, shared@, keys@.keys, token@, accepted)),
{
    let header = decode_token_header(token);
    let usable = match find_hint_key(&header, keys) {
        None => false,
        Some(k) => k.decoding_key().is_ok(),
    };
    if !usable || !accepted {
        return Err(Error::bad("Invalid ID token hint"));
    }
    let claims = match decode_token_claims(token) {
        None => return Err(Error::bad("Invalid ID token hint")),
        Some(c) => c,
    };
    let known = match &claims.aud {
        None => false,
        Some(cid) => tx.clients.has(cid.as_str()),
    };
    let early = match claims.iat {
        None => true,
        Some(iat) => iat > tx.now.saturating_add(60),
    };
    if !known || early || claims.exp.is_none() {
        return Err(Error::bad("Invalid ID token hint"));
    }
    Ok(claims)
}

/// The claims of an ID token that a request to log out gives as a hint, once `judge` found that the
/// published key signed it for the issuer of its client. It is asked about this token alone, and
/// whatever it answers decides; it is not asked where the hint cannot be verified.
pub fn verify_hint_by<F: FnOnce(&PublicJwk, &str, &ClaimRules) -> bool>(
    tx: &Tx,
    token: &str,
    shared: &str,
    keys: &PublicJwks,
    judge: F,
) -> (r: Result<AssertionClaims, Error>)
    requires
        forall|k: &PublicJwk, t: &str, c: &ClaimRules|
            t@ == token@ && c@ == hint_rules_of(c@.issuer) ==> #[trigger] judge.requires((k, t, c)),
    ensures
        if !usable_hint(tx@, shared@, keys@.keys, token@) {
            fails(r, hint_failure())
        } else {
            exists|k: &PublicJwk, t: &str, c: &ClaimRules, accepted: bool|
                {
                    &&& #[trigger] judge.ensures((k, t, c), accepted)
                    &&& k@ == hint_key(token_header(token@), keys@.keys)->0
                    &&& t@ == token@
                    &&& c@ == hint_rules_of(
                        hint_issuer(tx@, shared@, token_claims(token@)->0)->0,
                    )
                    &&& agrees_with(r, hint_result(tx@, shared@, keys@.keys, token@, accepted))
                }
        },
{
    let header = decode_token_header(token);
    let key = match find_hint_key(&header, keys) {
        None => return Err(Error::bad("Invalid ID token hint")),
        Some(k) => k,
    };
    if key.decoding_key().is_err() {
        return Err(Error::bad("Invalid ID token hint"));
    }
    let claims = match decode_token_claims(token) {
        None => return Err(Error::bad("Invalid ID token hint")),
        Some(c) => c,
    };
    let client = match &claims.aud {
        None => return Err(Error::bad("Invalid ID token hint")),
        Some(cid) => match tx.clients.get(cid.as_str()) {
            None => return Err(Error::bad("Invalid ID token hint")),
            Some(c) => c,
        },
    };
    let rules = hint_rules(crate::issuer::for_client(shared, client));
    let accepted = judge(key, token, &rules);
    finish_hint(tx, token, shared, keys, accepted)
}

/// The claims of an ID token that a request to log out gives as a hint. It may have expired, but
/// one of the published keys signed it for the issuer of its client.
pub fn verify_hint(tx: &Tx, token: &str, shared: &str, keys: &PublicJwks) -> (r: Result<
    AssertionClaims,
    Error,
>)
    ensures
        agrees_with(r, hint_result(tx@, shared@, keys@.keys, token@, true)) || agrees_with(
            r,
            hint_result(tx@, shared@, keys@.keys, token@, false),
        ),
        r matches Ok(c) ==> hint_stands(tx@, shared@, keys@.keys, token@, c@),
{
    verify_hint_by(tx, token, shared, keys, judge_now)
}

/// A published key signed the hint for the issuer of its client, and it has an expiry.
pub open spec fn hint_stands(
    t: TxModel,
    shared: Seq<char>,
    keys: Seq<PublicJwkModel>,
    token: Seq<char>,
    c: AssertionClaimsModel,
) -> bool {
    signed_by(token, hint_key(token_header(token), keys)->0) && addressed(
        token,
        hint_issuer(t, shared, c)->0,
        None,
    ) && meets(token, hint_rules_of(hint_issuer(t, shared, c)->0))
}

/// The client and the session of a relying party that a request to log out is for.
pub open spec fn logout_subject(t: TxModel, q: LogoutRequestModel, claims: AssertionClaimsModel) -> Result<
    (Seq<char>, RpSessionModel),
    Failure,
> {
    match claims.aud {
        None => Err(Failure::Bad("Invalid ID token audience"@)),
        Some(cid) => if q.client_id is Some && q.client_id->0 != cid {
            Err(Failure::Bad("Logout client does not match ID token"@))
        } else if !t.clients.dom().contains(cid) {
            Err(Failure::Bad("Unknown logout client"@))
        } else {
            match claims.sid {
                None => Err(Failure::Bad("ID token has no session identifier"@)),
                Some(sid) => if !t.rp_sessions.dom().contains(sid) {
                    Err(Failure::Bad("Unknown RP session"@))
                } else {
                    let rp = t.rp_sessions[sid];
                    if rp.client_id != cid || claims.sub != Some(rp.subject) || extended(
                        rp.expires_at,
                        3600,
                    ) < t.now {
                        Err(Failure::Bad("ID token does not identify a recent session"@))
                    } else {
                        Ok((cid, rp))
                    }
                },
            }
        },
    }
}

fn find_logout_subject(tx: &Tx, q: &LogoutRequest, claims: &AssertionClaims) -> (r: Result<
    (String, RpSession),
    Error,
>)
    ensures
        match logout_subject(tx@, q@, claims@) {
            Ok(p) => r is Ok && (r->Ok_0).0@ == p.0 && (r->Ok_0).1@ == p.1,
            Err(f) => fails(r, f),
        },
{
    let cid = match &claims.aud {
        None => return Err(Error::bad("Invalid ID token audience")),
        Some(c) => c,
    };
    if q.client_id.is_some() && !opt_is(&q.client_id, cid.as_str()) {
        return Err(Error::bad("Logout client does not match ID token"));
    }
    if !tx.clients.has(cid.as_str()) {
        return Err(Error::bad("Unknown logout client"));
    }
    let sid = match &claims.sid {
        None => return Err(Error::bad("ID token has no session identifier")),
        Some(s) => s,
    };
    let rp = match tx.rp_sessions.get(sid.as_str()) {
        None => return Err(Error::bad("Unknown RP session")),
        Some(r) => r,
    };
    let subject = match &claims.sub {
        Some(s) => same(s.as_str(), rp.subject.as_str()),
        None => false,
    };
    if !same(rp.client_id.as_str(), cid.as_str()) || !subject || rp.expires_at.saturating_add(3600)
        < tx.now {
        return Err(Error::bad("ID token does not identify a recent session"));
    }
    Ok((cid.clone(), rp.dup()))
}

/// The browser's cookie leads to this session.
pub open spec fn browser_mapped(t: TxModel, cookie: Option<Seq<char>>, sid: Seq<char>) -> bool {
    cookie is Some && t.browser_sessions.dom().contains(digest_of(cookie->0))
        && t.browser_sessions[digest_of(cookie->0)] == sid
}

/// The store once the browser does not lead to the session any more.
pub open spec fn browser_forgotten(t: TxModel, cookie: Option<Seq<char>>, sid: Seq<char>) -> TxModel {
    if browser_mapped(t, cookie, sid) {
        TxModel { browser_sessions: t.browser_sessions.remove(digest_of(cookie->0)), ..t }
    } else {
        t
    }
}

/// Drops the browser's way to a session; whether it had one.
pub fn forget_browser(tx: &mut Tx, cookie: &Option<String>, sid: &str) -> (r: bool)
    ensures
        r == browser_mapped(old(tx)@, opt_text(*cookie), sid@),
        final(tx)@ == browser_forgotten(old(tx)@, opt_text(*cookie), sid@),
{
    let c = match cookie {
        None => return false,
        Some(c) => c,
    };
    let key = digest(c.as_str());
    let mapped = match tx.browser_sessions.get(key.as_str()) {
        Some(s) => same(s.as_str(), sid),
        None => false,
    };
    if mapped {
        tx.browser_sessions.delete(key.as_str());
    }
    mapped
}

/// A session that was ended: the session, and whether the browser's cookie is cleared.
pub struct Ended {
    pub session_id: String,
    pub clear_sso: bool,
}

/// What a [`Ended`] holds.
pub struct EndedModel {
    pub session_id: Seq<char>,
    pub clear_sso: bool,
}

impl View for Ended {
    type V = EndedModel;

    open spec fn view(&self) -> EndedModel {
        EndedModel {
            session_id: self.session_id@,
            clear_sso: self.clear_sso,
        }
    }
}

impl Row for Ended {
    fn dup(&self) -> (r: Self) {
        Ended {
            session_id: self.session_id.clone(),
            clear_sso: self.clear_sso,
        }
    }
}

pub open spec fn interaction(m: Seq<char>) -> Failure {
    Failure::Oauth("interaction_required"@, m)
}

/// The session that the request comes from. `session` is that of the bearer token or of the
/// browser; `refused` is why the bearer token leads to none.
pub open spec fn asking_session(
    bearer: Option<Seq<char>>,
    session: Option<SessionModel>,
    refused: Option<Failure>,
) -> Result<SessionModel, Failure> {
    match session {
        Some(s) => Ok(s),
        None => if bearer is Some {
            Err(
                match refused {
                    Some(f) => f,
                    None => Failure::Unauthorized,
                },
            )
        } else {
            Err(interaction("Terminal confirmation required; use riauth logout"@))
        },
    }
}

/// The session had ended before, and whoever asks was in it.
pub open spec fn ended_before(
    t: TxModel,
    rp: RpSessionModel,
    cookie: Option<Seq<char>>,
    bearer: Option<Seq<char>>,
) -> bool {
    rp.ended && (!t.sessions.dom().contains(rp.session_id) || t.sessions[rp.session_id].revoked) && (
    browser_mapped(t, cookie, rp.session_id) || (bearer is Some && t.session_tokens.dom().contains(
        digest_of(bearer->0),
    ) && t.session_tokens[digest_of(bearer->0)] == rp.session_id))
}

/// What a request to log out does. `claims` are those of its verified hint, `redirect` is why its
/// return address is refused, if it is.
pub open spec fn logged_out(
    t: TxModel,
    q: LogoutRequestModel,
    claims: Result<AssertionClaimsModel, Failure>,
    cookie: Option<Seq<char>>,
    bearer: Option<Seq<char>>,
    session: Option<SessionModel>,
    refused: Option<Failure>,
    redirect: Option<Failure>,
) -> (TxModel, Result<EndedModel, Failure>) {
    if q.state is Some && byte_count(q.state->0) > 512 {
        (t, Err(Failure::Bad("Logout state too long"@)))
    } else if q.id_token_hint is None {
        (
            t,
            Err(
                interaction("Use riauth logout, or provide a session-bound ID token hint"@),
            ),
        )
    } else {
        match claims {
            Err(f) => (t, Err(f)),
            Ok(c) => match logout_subject(t, q, c) {
                Err(f) => (t, Err(f)),
                Ok((cid, rp)) => if redirect is Some {
                    (t, Err(redirect->0))
                } else if ended_before(t, rp, cookie, bearer) {
                    (
                        browser_forgotten(t, cookie, rp.session_id),
                        Ok(
                            EndedModel {
                                session_id: rp.session_id,
                                clear_sso: browser_mapped(t, cookie, rp.session_id),
                            },
                        ),
                    )
                } else {
                    match asking_session(bearer, session, refused) {
                        Err(f) => (t, Err(f)),
                        Ok(s) => if s.id != rp.session_id {
                            (
                                t,
                                Err(
                                    interaction(
                                        "ID token belongs to another session; use that account's terminal to log out"@,
                                    ),
                                ),
                            )
                        } else {
                            let u = audited(
                                queued(
                                    TxModel {
                                        sessions: t.sessions.insert(
                                            s.id,
                                            SessionModel { revoked: true, ..s },
                                        ),
                                        ..t
                                    },
                                    SelectionModel::Session(s.id),
                                ),
                                s.identity.user_id,
                                "oidc.logout"@,
                                cid,
                            );
                            (
                                browser_forgotten(u, cookie, s.id),
                                Ok(
                                    EndedModel {
                                        session_id: s.id,
                                        clear_sso: browser_mapped(u, cookie, s.id),
                                    },
                                ),
                            )
                        },
                    }
                },
            },
        }
    }
}

impl Core {
    /// Ends the session that a relying party's request names, where the request comes from it.
    pub fn end_session_with(
        &self,
        tx: &mut Tx,
        request: &LogoutRequest,
        claims: Result<AssertionClaims, Error>,
        cookie: &Option<String>,
        bearer: &Option<String>,
        session: &Option<Session>,
        refused: &Option<Error>,
        redirect: &Option<Error>,
    ) -> (r: Result<Ended, Error>)
        ensures
            ({
                let out = logged_out(
                    old(tx)@,
                    request@,
                    match claims {
                        Ok(c) => Ok(c@),
                        Err(e) => Err(e@),
                    },
                    opt_text(*cookie),
                    opt_text(*bearer),
                    opt_view(*session),
                    opt_failure(*refused),
                    opt_failure(*redirect),
                );
                final(tx)@ == out.0 && agrees_with(r, out.1)
            }),
    {
        if let Some(s) = &request.state {
            if byte_len(s.as_str()) > 512 {
                return Err(Error::bad("Logout state too long"));
            }
        }
        if request.id_token_hint.is_none() {
            return Err(
                Error::oauth(
                    "interaction_required",
                    "Use riauth logout, or provide a session-bound ID token hint",
                ),
            );
        }
        let c = match claims {
            Err(e) => return Err(e),
            Ok(c) => c,
        };
        let (cid, rp) = match find_logout_subject(tx, request, &c) {
            Err(e) => return Err(e),
            Ok(p) => p,
        };
        if let Some(e) = redirect {
            return Err(copy_error(e));
        }
        let sid = rp.session_id.as_str();
        let gone = match tx.sessions.get(sid) {
            None => true,
            Some(s) => s.revoked,
        };
        if rp.ended && gone {
            let known = match bearer {
                None => false,
                Some(b) => {
                    let key = digest(b.as_str());
                    match tx.session_tokens.get(key.as_str()) {
                        Some(s) => same(s.as_str(), sid),
                        None => false,
                    }
                },
            };
            let mapped = match cookie {
                None => false,
                Some(c) => {
                    let key = digest(c.as_str());
                    match tx.browser_sessions.get(key.as_str()) {
                        Some(s) => same(s.as_str(), sid),
                        None => false,
                    }
                },
            };
            if mapped || known {
                let clear_sso = forget_browser(tx, cookie, sid);
                return Ok(Ended { session_id: rp.session_id, clear_sso });
            }
        }
        let s = match session {
            Some(s) => s,
            None => {
                if bearer.is_some() {
                    return match refused {
                        Some(e) => Err(copy_error(e)),
                        None => Err(Error::Unauthorized),
                    };
                }
                return Err(
                    Error::oauth(
                        "interaction_required",
                        "Terminal confirmation required; use riauth logout",
                    ),
                );
            },
        };
        if !same(s.id.as_str(), sid) {
            return Err(
                Error::oauth(
                    "interaction_required",
                    "ID token belongs to another session; use that account's terminal to log out",
                ),
            );
        }
        let mut next = s.dup();
        next.revoked = true;
        tx.sessions.put(s.id.as_str(), next);
        queue_session(tx, s.id.as_str());
        audit(tx, s.identity.user_id.as_str(), "oidc.logout", cid.as_str());
        let clear_sso = forget_browser(tx, cookie, s.id.as_str());
        Ok(Ended { session_id: s.id.clone(), clear_sso })
    }
}

/// Nobody ends a session that they are not in: where one is ended, the request came from it.
pub proof fn sessions_are_ended_from_within(
    t: TxModel,
    q: LogoutRequestModel,
    claims: Result<AssertionClaimsModel, Failure>,
    cookie: Option<Seq<char>>,
    bearer: Option<Seq<char>>,
    session: Option<SessionModel>,
    refused: Option<Failure>,
    redirect: Option<Failure>,
)
    requires
        logged_out(t, q, claims, cookie, bearer, session, refused, redirect).1 is Ok,
    ensures
        ({
            let e = logged_out(t, q, claims, cookie, bearer, session, refused, redirect).1->Ok_0;
            (session matches Some(s) && s.id == e.session_id) || browser_mapped(
                t,
                cookie,
                e.session_id,
            ) || (bearer is Some && t.session_tokens.dom().contains(digest_of(bearer->0))
                && t.session_tokens[digest_of(bearer->0)] == e.session_id)
        }),
{
}

/// The claims of a logout token.
pub open spec fn logout_claims(d: DeliveryModel, issuer: Seq<char>, now: u64) -> JsonModel {
    JsonModel::Object(
        seq![
            ("iss"@, JsonModel::Text(issuer)),
            ("aud"@, JsonModel::Text(d.client_id)),
            ("sub"@, JsonModel::Text(d.subject)),
            ("sid"@, JsonModel::Text(d.sid)),
            ("iat"@, JsonModel::Unsigned(now)),
            ("exp"@, JsonModel::Unsigned(extended(now, 120))),
            ("jti"@, JsonModel::Text(d.id)),
            (
                "events"@,
                JsonModel::Object(
                    seq![
                        (
                            "http://schemas.openid.net/event/backchannel-logout"@,
                            JsonModel::Object(Seq::empty()),
                        ),
                    ],
                ),
            ),
        ],
    )
}

fn make_claims(d: &Delivery, issuer: &str, now: u64) -> (r: Json)
    ensures
        r@ == logout_claims(d@, issuer@, now),
{
    let none: Vec<Member> = Vec::new();
    proof {
        lemma_members_of(none);
        assert(members_of(none@) =~= Seq::<(Seq<char>, JsonModel)>::empty());
    }
    let events = crate::json::single(
        "http://schemas.openid.net/event/backchannel-logout",
        Json::Object(none),
    );
    let mut m: Vec<Member> = Vec::new();
    m.push(member("iss", text(issuer)));
    m.push(member("aud", text(d.client_id.as_str())));
    m.push(member("sub", text(d.subject.as_str())));
    m.push(member("sid", text(d.sid.as_str())));
    m.push(member("iat", Json::Unsigned(now)));
    m.push(member("exp", Json::Unsigned(now.saturating_add(120))));
    m.push(member("jti", text(d.id.as_str())));
    m.push(member("events", events));
    proof {
        lemma_members_of(m);
        assert(members_of(m@) =~= logout_claims(d@, issuer@, now)->Object_0);
    }
    Json::Object(m)
}

/// A delivery that is sent, with the claims of its token and the id of the key that signs it.
pub struct DueLogout {
    pub delivery: Delivery,
    pub claims: Json,
    pub kid: String,
}

/// What a [`DueLogout`] holds.
pub struct DueLogoutModel {
    pub delivery: DeliveryModel,
    pub claims: JsonModel,
    pub kid: Seq<char>,
}

impl View for DueLogout {
    type V = DueLogoutModel;

    open spec fn view(&self) -> DueLogoutModel {
        DueLogoutModel {
            delivery: self.delivery@,
            claims: self.claims@,
            kid: self.kid@,
        }
    }
}

impl Row for DueLogout {
    fn dup(&self) -> (r: Self) {
        DueLogout {
            delivery: self.delivery.dup(),
            claims: self.claims.dup(),
            kid: self.kid.clone(),
        }
    }
}

/// The due deliveries that are sent, at most sixteen, with the store after they were looked at.
pub open spec fn logouts_claimed(t: TxModel, shared: Seq<char>, keys: Seq<Seq<char>>) -> Result<
    (TxModel, Seq<DueLogoutModel>),
    Failure,
>
    decreases keys.len(),
{
    if keys.len() == 0 {
        Ok((t, Seq::empty()))
    } else {
        match logouts_claimed(t, shared, keys.drop_last()) {
            Err(f) => Err(f),
            Ok(was) => {
                let u = was.0;
                let k = keys.last();
                let d = u.logout_deliveries[k];
                if was.1.len() >= 16 || !u.logout_deliveries.dom().contains(k) || d.delivered_at is Some
                    || d.next_attempt > u.now {
                    Ok(was)
                } else if extended(d.created_at, 86400) < u.now {
                    Ok(
                        (
                            TxModel {
                                logout_deliveries: u.logout_deliveries.insert(
                                    k,
                                    DeliveryModel { next_attempt: u64::MAX, ..d },
                                ),
                                ..u
                            },
                            was.1,
                        ),
                    )
                } else if !u.clients.dom().contains(d.client_id) {
                    Err(Failure::Bad("Logout client is missing"@))
                } else {
                    let c = u.clients[d.client_id];
                    let next = DeliveryModel {
                        attempts: if d.attempts == u32::MAX {
                            u32::MAX
                        } else {
                            (d.attempts + 1) as u32
                        },
                        next_attempt: extended(u.now, 60),
                        ..d
                    };
                    match client_keys(u, c) {
                        Err(f) => Err(f),
                        Ok(ring) => Ok(
                            (
                                TxModel {
                                    logout_deliveries: u.logout_deliveries.insert(k, next),
                                    ..u
                                },
                                was.1.push(
                                    DueLogoutModel {
                                        delivery: next,
                                        claims: logout_claims(next, issuer_of(shared, c), u.now),
                                        kid: ring.active.kid,
                                    },
                                ),
                            ),
                        ),
                    }
                }
            },
        }
    }
}

proof fn lemma_claim_fails(t: TxModel, shared: Seq<char>, keys: Seq<Seq<char>>, n: int)
    requires
        0 <= n <= keys.len(),
        logouts_claimed(t, shared, keys.take(n)) is Err,
    ensures
        logouts_claimed(t, shared, keys) == logouts_claimed(t, shared, keys.take(n)),
    decreases keys.len() - n,
{
    if n < keys.len() {
        assert(keys.take(n + 1).drop_last() =~= keys.take(n));
        lemma_claim_fails(t, shared, keys, n + 1);
    } else {
        assert(keys.take(n) =~= keys);
    }
}

impl Core {
    /// Takes up to sixteen of the due deliveries. Each comes with the claims of the token to send.
    #[verifier::loop_isolation(false)]
    pub fn claim_logout_deliveries(&self, tx: &mut Tx, due: &Vec<String>) -> (r: Result<
        Vec<DueLogout>,
        Error,
    >)
        ensures
            match logouts_claimed(old(tx)@, self@.config.issuer, texts(due@)) {
                Ok(p) => final(tx)@ == p.0 && r is Ok && views(r->Ok_0@) == p.1,
                Err(f) => final(tx)@ == old(tx)@ && fails(r, f),
            },
    {
        let ghost t0 = tx@;
        let ghost all = texts(due@);
        let ghost shared = self@.config.issuer;
        let before_all = tx.logout_deliveries.dup();
        let mut ready: Vec<DueLogout> = Vec::new();
        let n: usize = due.len();
        let mut i: usize = 0;
        assert(all.take(0) =~= Seq::<Seq<char>>::empty());
        assert(views(ready@) =~= Seq::<DueLogoutModel>::empty());
        while i < n
            invariant
                i <= n,
                before_all@ == t0.logout_deliveries,
                tx@ == (TxModel { logout_deliveries: tx@.logout_deliveries, ..t0 }),
                logouts_claimed(t0, shared, all.take(i as int)) == Ok::<
                    (TxModel, Seq<DueLogoutModel>),
                    Failure,
                >((tx@, views(ready@))),
            decreases n - i,
        {
            proof {
                assert(all.take(i + 1).drop_last() =~= all.take(i as int));
                assert(all.take(i + 1).last() == due@[i as int]@);
                assert(views(ready@).len() == ready.len());
            }
            let key = due[i].as_str();
            let found = match tx.logout_deliveries.get(key) {
                Some(d) => Some(d.dup()),
                None => None,
            };
            if let Some(x) = found {
                let mut d = x;
                if ready.len() < 16 && d.delivered_at.is_none() && d.next_attempt <= tx.now {
                    if d.created_at.saturating_add(86400) < tx.now {
                        d.next_attempt = u64::MAX;
                        tx.logout_deliveries.put(key, d);
                    } else {
                        d.attempts = d.attempts.saturating_add(1);
                        d.next_attempt = tx.now.saturating_add(60);
                        let client = match tx.clients.get(d.client_id.as_str()) {
                            None => {
                                tx.logout_deliveries = before_all;
                                proof {
                                    lemma_claim_fails(t0, shared, all, i + 1);
                                }
                                return Err(Error::bad("Logout client is missing"));
                            },
                            Some(c) => c.dup(),
                        };
                        let kid = match crate::keyring::for_client(tx, &client) {
                            Err(e) => {
                                tx.logout_deliveries = before_all;
                                proof {
                                    lemma_claim_fails(t0, shared, all, i + 1);
                                }
                                return Err(e);
                            },
                            Ok(ring) => ring.active.kid.clone(),
                        };
                        let issuer = crate::issuer::for_client(
                            self.config.issuer.as_str(),
                            &client,
                        );
                        let claims = make_claims(&d, issuer, tx.now);
                        tx.logout_deliveries.put(key, d.dup());
                        let ghost was = views(ready@);
                        let out = DueLogout { delivery: d, claims, kid };
                        let ghost om = out@;
                        ready.push(out);
                        assert(views(ready@) =~= was.push(om));
                    }
                }
            }
            i = i + 1;
        }
        assert(all.take(n as int) =~= all);
        Ok(ready)
    }
}

impl Core {
    /// Lists the deliveries, in the order of their ids.
    pub fn logout_deliveries(&self, tx: &Tx) -> (r: Vec<Delivery>)
        ensures
            views(r@) == rows_in(
                tx@.logout_deliveries,
                in_order(tx@.logout_deliveries.dom()),
                tx@.logout_deliveries.dom(),
            ),
    {
        let all = tx.logout_deliveries.keys();
        tx.logout_deliveries.rows_among(&all)
    }
}

/// Claims, or why there are none, as they are stated.
pub open spec fn claims_view(r: Result<AssertionClaims, Error>) -> Result<AssertionClaimsModel, Failure> {
    match r {
        Ok(c) => Ok(c@),
        Err(e) => Err(e@),
    }
}

/// The claims are those of the request's hint, which one of the published keys signed for the issuer
/// of its client, or there are none.
pub open spec fn hint_offered(
    t: TxModel,
    shared: Seq<char>,
    keys: Seq<PublicJwkModel>,
    q: LogoutRequestModel,
    claims: Result<AssertionClaimsModel, Failure>,
) -> bool {
    match claims {
        Err(f) => f == hint_failure(),
        Ok(c) => q.id_token_hint is Some && hint_result(t, shared, keys, q.id_token_hint->0, true) == Ok::<
            AssertionClaimsModel,
            Failure,
        >(c) && hint_stands(t, shared, keys, q.id_token_hint->0, c),
    }
}

impl Core {
    /// Ends the session that a relying party's hint names, once the hint verified under the published
    /// `keys`, where the request comes from that session.
    pub fn end_session_direct(
        &self,
        tx: &mut Tx,
        request: &LogoutRequest,
        keys: &PublicJwks,
        cookie: &Option<String>,
        bearer: &Option<String>,
        session: &Option<Session>,
        refused: &Option<Error>,
        redirect: &Option<Error>,
    ) -> (r: Result<Ended, Error>)
        ensures
            exists|claims: Result<AssertionClaimsModel, Failure>| #[trigger]
                hint_offered(old(tx)@, self@.config.issuer, keys@.keys, request@, claims) && ({
                    let out = logged_out(
                        old(tx)@,
                        request@,
                        claims,
                        opt_text(*cookie),
                        opt_text(*bearer),
                        opt_view(*session),
                        opt_failure(*refused),
                        opt_failure(*redirect),
                    );
                    final(tx)@ == out.0 && agrees_with(r, out.1)
                }),
    {
        let claims = match &request.id_token_hint {
            None => Err(Error::bad("Invalid ID token hint")),
            Some(hint) => verify_hint(tx, hint.as_str(), self.config.issuer.as_str(), keys),
        };
        assert(hint_offered(
            tx@,
            self@.config.issuer,
            keys@.keys,
            request@,
            claims_view(claims),
        ));
        self.end_session_with(tx, request, claims, cookie, bearer, session, refused, redirect)
    }
}

/// Who logs out ends their session: it is revoked, every client that was told of it is queued for a
/// notice, and the browser that held it forgets it.
pub proof fn logging_out_revokes_the_session(
    t: TxModel,
    q: LogoutRequestModel,
    c: AssertionClaimsModel,
    cookie: Option<Seq<char>>,
    bearer: Option<Seq<char>>,
    s: SessionModel,
)
    requires
        q.id_token_hint is Some,
        q.state is None,
        q.client_id is None,
        c.aud is Some && t.clients.dom().contains(c.aud->0),
        c.sid is Some && t.rp_sessions.dom().contains(c.sid->0),
        t.rp_sessions[c.sid->0].client_id == c.aud->0,
        c.sub == Some(t.rp_sessions[c.sid->0].subject),
        t.rp_sessions[c.sid->0].expires_at >= t.now,
        t.rp_sessions[c.sid->0].session_id == s.id,
        !t.rp_sessions[c.sid->0].ended,
    ensures
        ({
            let out = logged_out(
                t,
                q,
                Ok(c),
                cookie,
                bearer,
                Some(s),
                None,
                None,
            );
            &&& out.1 is Ok
            &&& (out.1->Ok_0).session_id == s.id
            &&& out.0.sessions.dom().contains(s.id) && out.0.sessions[s.id].revoked
            &&& out.0.sessions[s.id].identity == s.identity
            &&& forall|k: Seq<char>| k != s.id ==> #[trigger] out.0.sessions[k] == t.sessions[k]
            &&& cookie is Some ==> (!out.0.browser_sessions.dom().contains(digest_of(cookie->0))
                || out.0.browser_sessions[digest_of(cookie->0)] != s.id)
            &&& (out.1->Ok_0).clear_sso <==> cookie is Some && t.browser_sessions.dom().contains(
                digest_of(cookie->0),
            ) && t.browser_sessions[digest_of(cookie->0)] == s.id
            &&& out.0.audit.last() == (AuditModel {
                actor: s.identity.user_id,
                action: "oidc.logout"@,
                target: c.aud->0,
            })
        }),
{
    lemma_queued_keeps_sessions(
        TxModel {
            sessions: t.sessions.insert(s.id, SessionModel { revoked: true, ..s }),
            ..t
        },
        SelectionModel::Session(s.id),
    );
}

proof fn lemma_queued_keeps_sessions(t: TxModel, s: SelectionModel)
    ensures
        queued(t, s).sessions == t.sessions,
        queued(t, s).browser_sessions == t.browser_sessions,
{
    lemma_ended_all_keeps_sessions(t, in_order(t.rp_sessions.dom()), s);
}

proof fn lemma_ended_all_keeps_sessions(t: TxModel, keys: Seq<Seq<char>>, s: SelectionModel)
    ensures
        ended_all(t, keys, s).sessions == t.sessions,
        ended_all(t, keys, s).browser_sessions == t.browser_sessions,
    decreases keys.len(),
{
    if keys.len() > 0 {
        lemma_ended_all_keeps_sessions(t, keys.drop_last(), s);
    }
}

/// A hint ends the session that it names, of the client that it was issued to, and no other.
pub proof fn hints_name_their_own_session(
    t: TxModel,
    q: LogoutRequestModel,
    claims: AssertionClaimsModel,
)
    requires
        logout_subject(t, q, claims) is Ok,
    ensures
        ({
            let out = logout_subject(t, q, claims)->Ok_0;
            &&& claims.aud == Some(out.0)
            &&& q.client_id is Some ==> q.client_id == Some(out.0)
            &&& t.clients.dom().contains(out.0)
            &&& claims.sid is Some && t.rp_sessions.dom().contains(claims.sid->0)
            &&& out.1 == t.rp_sessions[claims.sid->0]
            &&& out.1.client_id == out.0
            &&& claims.sub == Some(out.1.subject)
            &&& t.now <= out.1.expires_at + 3600
        }),
{
}

/// A logout notice says who it is from, to whom, and which login of whom has ended, once, for two minutes.
pub proof fn notices_say_which_login_ended(d: DeliveryModel, issuer: Seq<char>, now: u64)
    requires
        now + 120 <= u64::MAX,
    ensures
        ({
            let n = logout_claims(d, issuer, now);
            &&& n.member("iss"@) == Some(JsonModel::Text(issuer))
            &&& n.member("aud"@) == Some(JsonModel::Text(d.client_id))
            &&& n.member("sub"@) == Some(JsonModel::Text(d.subject))
            &&& n.member("sid"@) == Some(JsonModel::Text(d.sid))
            &&& n.member("jti"@) == Some(JsonModel::Text(d.id))
            &&& n.member("iat"@) == Some(JsonModel::Unsigned(now))
            &&& n.member("exp"@) == Some(JsonModel::Unsigned((now + 120) as u64))
            &&& n.member("nonce"@) is None
        }),
{
    reveal_strlit("iss");
    reveal_strlit("aud");
    reveal_strlit("sub");
    reveal_strlit("sid");
    reveal_strlit("iat");
    reveal_strlit("exp");
    reveal_strlit("jti");
    reveal_strlit("events");
    reveal_strlit("nonce");
    let m = logout_claims(d, issuer, now)->Object_0;
    assert("iss"@[0] == 'i' && "iss"@[1] == 's');
    assert("aud"@[0] == 'a');
    assert("sub"@[0] == 's' && "sub"@[1] == 'u');
    assert("sid"@[0] == 's' && "sid"@[1] == 'i');
    assert("iat"@[0] == 'i' && "iat"@[1] == 'a');
    assert("exp"@[0] == 'e' && "exp"@.len() == 3);
    assert("jti"@[0] == 'j');
    assert("events"@[0] == 'e' && "events"@.len() == 6);
    assert("nonce"@[0] == 'n');
    reveal_with_fuel(crate::json::lookup, 9);
    assert(m.len() == 8);
}

/// A notice that is due goes out with the keys of its client, and is due again a minute later; one
/// that was delivered or is not due yet stays as it is, and after a day none is sent any more.
pub proof fn due_notices_are_taken(t: TxModel, shared: Seq<char>, k: Seq<char>)
    requires
        t.logout_deliveries.dom().contains(k),
        t.now <= u64::MAX - 60,
        t.logout_deliveries[k].created_at <= u64::MAX - 86400,
    ensures
        ({
            let d = t.logout_deliveries[k];
            let out = logouts_claimed(t, shared, seq![k]);
            &&& d.delivered_at is Some || d.next_attempt > t.now ==> out == Ok::<
                (TxModel, Seq<DueLogoutModel>),
                Failure,
            >((t, Seq::empty()))
            &&& d.delivered_at is None && d.next_attempt <= t.now && t.now > d.created_at + 86400 ==> (
            out matches Ok((u, v)) && v.len() == 0 && u.logout_deliveries[k].next_attempt == u64::MAX)
            &&& d.delivered_at is None && d.next_attempt <= t.now && t.now <= d.created_at + 86400
                && t.clients.dom().contains(d.client_id) && client_keys(t, t.clients[d.client_id]) is Ok ==> (
            out matches Ok((u, v)) && v.len() == 1 && v[0].delivery == u.logout_deliveries[k]
                && v[0].delivery.id == d.id && v[0].delivery.client_id == d.client_id
                && v[0].delivery.next_attempt == t.now + 60 && (d.attempts < u32::MAX
                ==> v[0].delivery.attempts == d.attempts + 1) && v[0].delivery.delivered_at is None
                && v[0].kid == (client_keys(t, t.clients[d.client_id])->Ok_0).active.kid && v[0].claims
                == logout_claims(v[0].delivery, issuer_of(shared, t.clients[d.client_id]), t.now))
        }),
{
    reveal_with_fuel(crate::logout::ending::logouts_claimed, 2);
    assert(seq![k].drop_last() =~= Seq::<Seq<char>>::empty());
    assert(seq![k].last() == k);
}

/// A session that asks is the one that was found; without one, a terminal is sent to confirm, and a
/// bearer is refused for the reason that was found.
pub proof fn logouts_need_a_session(
    bearer: Option<Seq<char>>,
    session: Option<SessionModel>,
    refused: Option<Failure>,
)
    ensures
        asking_session(bearer, session, refused) is Ok <==> session is Some,
        session is Some ==> asking_session(bearer, session, refused)->Ok_0 == session->0,
        session is None && bearer is Some && refused is Some ==> asking_session(bearer, session, refused)
            == Err::<SessionModel, Failure>(refused->0),
        session is None && bearer is Some && refused is None ==> asking_session(bearer, session, refused)
            == Err::<SessionModel, Failure>(Failure::Unauthorized),
{
}

/// A hint is checked with the key that it names, if that key is for the hint's algorithm.
pub proof fn hints_are_checked_with_their_key(h: TokenHeaderModel, keys: Seq<PublicJwkModel>)
    ensures
        hint_key(Some(h), keys) matches Some(k) ==> h.kid is Some && h.algorithm is Some && key_for(
            keys,
            h.kid->0,
        ) == Some(k) && k.alg == algorithm_name(h.algorithm->0) && (h.typ == Some("JWT"@) || h.typ == Some(
            "dpop+id_token"@,
        )),
        hint_key(None, keys) is None,
{
}

/// A hint is taken if it is by the issuer of a client that is there, was made by now and was signed by
/// the key that it names.
pub proof fn hints_are_taken_from_their_issuer(
    t: TxModel,
    shared: Seq<char>,
    keys: Seq<PublicJwkModel>,
    q: LogoutRequestModel,
    c: AssertionClaimsModel,
)
    requires
        hint_offered(t, shared, keys, q, Ok(c)),
        t.now <= u64::MAX - 60,
    ensures
        ({
            let token = q.id_token_hint->0;
            &&& q.id_token_hint is Some
            &&& token_claims(token) == Some(c)
            &&& c.aud is Some && t.clients.dom().contains(c.aud->0)
            &&& addressed(token, issuer_of(shared, t.clients[c.aud->0]), None)
            &&& hint_key(token_header(token), keys) is Some
            &&& signed_by(token, hint_key(token_header(token), keys)->0)
            &&& c.iat is Some && c.iat->0 <= t.now + 60
            &&& c.exp is Some
        }),
{
}

/// An expired hint still names its session; it must not be from the future, by at most a minute.
pub proof fn hints_may_be_expired(issuer: Seq<char>)
    ensures
        !hint_rules_of(issuer).expiring,
        hint_rules_of(issuer).starting,
        hint_rules_of(issuer).leeway == 60,
        hint_rules_of(issuer).issuer == issuer,
        hint_rules_of(issuer).audience is None,
{
}

} // verus!
