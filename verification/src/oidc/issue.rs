//! What tokens say and what the provider remembers of them.
use crate::engine::{ConfigModel, Core, audit, audited, drawn, earlier, extended, next_id};
use crate::error::{Error, Failure, agrees, fails};
use crate::exchange::chain_check;
use crate::issuer::issuer_of;
use crate::jose::{AssertionClaims, AssertionClaimsModel};
use crate::json::{Json, JsonModel, text, text_array, texts_array};
use crate::keyring::client_keys;
use crate::logout::{record, recorded, relying_sid};
use crate::model::{AuditModel, Client, ClientModel, Grant, GrantModel, is_confidential, methods_of};
use crate::names::in_order;
use crate::oidc::{Standing, StandingModel, TokenRequest, TokenRequestModel, access_ttl, active_client, authenticated, authenticates, check_client, claims_offered, client_failure, family_revoked, get_client, given, local_check, note_client, read_assertion, required, revoke_family};
use crate::outside::{base64url, base64url_of, digest, digest_of, sha256, sha256_of, sha512, sha512_of};
use crate::resource::audience_of;
use crate::store::{Tx, TxModel};
use crate::table::{Row, Table, dup_opt, opt_view};
use crate::text::{concat, copy_opt, joined, same};
use vstd::utf8::encode_utf8;
use vstd::prelude::*;
use vstd::string::*;

verus! {

/// Claims by name.
pub type ClaimMap = Map<Seq<char>, JsonModel>;

/// An access token that is ready to be signed.
pub struct AccessDraft {
    pub claims: Table<Json>,
    pub subject: String,
    pub scope: String,
    pub expires_at: u64,
}

/// What a [`AccessDraft`] holds.
pub struct AccessDraftModel {
    pub claims: Map<Seq<char>, JsonModel>,
    pub subject: Seq<char>,
    pub scope: Seq<char>,
    pub expires_at: u64,
}

impl View for AccessDraft {
    type V = AccessDraftModel;

    open spec fn view(&self) -> AccessDraftModel {
        AccessDraftModel {
            claims: self.claims@,
            subject: self.subject@,
            scope: self.scope@,
            expires_at: self.expires_at,
        }
    }
}

impl Row for AccessDraft {
    fn dup(&self) -> (r: Self) {
        AccessDraft {
            claims: self.claims.dup(),
            subject: self.subject.clone(),
            scope: self.scope.clone(),
            expires_at: self.expires_at,
        }
    }
}

/// The subject of a grant without a user.
pub open spec fn service_name(g: GrantModel) -> Seq<char> {
    if g.exchange is Some && (g.exchange->0).service_subject is Some {
        (g.exchange->0).service_subject->0
    } else {
        "service:"@ + g.client_id
    }
}

pub fn service_subject(grant: &Grant) -> (r: String)
    ensures
        r@ == service_name(grant@),
{
    if let Some(x) = &grant.exchange {
        if let Some(s) = &x.service_subject {
            return s.clone();
        }
    }
    concat("service:", grant.client_id.as_str())
}

/// What is claimed of the identity of a grant: the mapped claims of its user, or its service name.
pub open spec fn identity_claims(g: GrantModel, mapped: ClaimMap) -> ClaimMap {
    if g.identity is Some {
        mapped
    } else {
        Map::<Seq<char>, JsonModel>::empty().insert("sub"@, JsonModel::Text(service_name(g)))
    }
}

/// The subject that claims name.
pub open spec fn claimed_subject(m: ClaimMap) -> Option<Seq<char>> {
    if m.dom().contains("sub"@) {
        m["sub"@].text()
    } else {
        None
    }
}

/// When an access token for the grant ends.
pub open spec fn access_expiry(t: TxModel, cfg: ConfigModel, c: ClientModel, g: GrantModel) -> u64 {
    let end = extended(t.now, access_ttl(cfg, c));
    if end <= g.expires_at {
        end
    } else {
        g.expires_at
    }
}

/// The claims of an access token.
pub open spec fn access_claims(
    t: TxModel,
    cfg: ConfigModel,
    c: ClientModel,
    g: GrantModel,
    mapped: ClaimMap,
) -> ClaimMap {
    let own = identity_claims(g, mapped);
    let base = if c.settings.claims_in_access_token {
        own
    } else {
        Map::<Seq<char>, JsonModel>::empty()
    };
    let m = base.insert("iss"@, JsonModel::Text(issuer_of(cfg.issuer, c))).insert(
        "sub"@,
        JsonModel::Text(claimed_subject(own)->0),
    ).insert("iat"@, JsonModel::Unsigned(t.now)).insert(
        "exp"@,
        JsonModel::Unsigned(access_expiry(t, cfg, c, g)),
    ).insert("jti"@, JsonModel::Text(next_id(t))).insert(
        "scope"@,
        JsonModel::Text(joined(in_order(g.scopes), " "@)),
    ).insert(
        "client_id"@,
        JsonModel::Text(
            match g.exchange {
                Some(x) => x.requester_id,
                None => g.client_id,
            },
        ),
    );
    let with_act = if g.exchange is Some && (g.exchange->0).act is Some {
        m.insert("act"@, (g.exchange->0).act->0)
    } else {
        m
    };
    let with_aud = with_act.insert("aud"@, JsonModel::Text(audience_of(g)));
    match g.confirmation_jkt {
        Some(jkt) => with_aud.insert("cnf"@, key_claim(jkt)),
        None => with_aud,
    }
}

/// The claim that binds a token to a key.
pub open spec fn key_claim(jkt: Seq<char>) -> JsonModel {
    JsonModel::Object(seq![("jkt"@, JsonModel::Text(jkt))])
}

/// Why no access token can be made for a grant. `mapped` holds the claims of the grant's user, or
/// nothing where the identity, claim or assurance policies refuse.
pub open spec fn issue_check(t: TxModel, g: GrantModel, mapped: Option<ClaimMap>) -> Result<(), Failure> {
    if !active_client(t, g.client_id) {
        Err(client_failure())
    } else if client_keys(t, t.clients[g.client_id]) is Err {
        Err(client_keys(t, t.clients[g.client_id])->Err_0)
    } else if g.identity is Some && mapped is None {
        Err(Failure::Refused("identity"@))
    } else if g.identity is Some && claimed_subject(mapped->0) is None {
        Err(Failure::Internal("Missing subject"@))
    } else {
        Ok(())
    }
}

/// The claims that were mapped, or none.
pub open spec fn mapped_or_none(mapped: Option<ClaimMap>) -> ClaimMap {
    match mapped {
        Some(m) => m,
        None => Map::empty(),
    }
}

/// The access token of a grant, ready to be signed.
pub open spec fn draft_of(t: TxModel, cfg: ConfigModel, g: GrantModel, mapped: ClaimMap) -> AccessDraftModel {
    let c = t.clients[g.client_id];
    AccessDraftModel {
        claims: access_claims(t, cfg, c, g, mapped),
        subject: claimed_subject(identity_claims(g, mapped))->0,
        scope: joined(in_order(g.scopes), " "@),
        expires_at: access_expiry(t, cfg, c, g),
    }
}

impl Core {
    /// Drafts the access token of a grant, for the caller to sign with the key of its client.
    pub fn draft_access(&self, tx: &mut Tx, grant: &Grant, mapped: &Option<Table<Json>>) -> (r: Result<
        AccessDraft,
        Error,
    >)
        ensures
            match issue_check(old(tx)@, grant@, opt_view(*mapped)) {
                Err(f) => fails(r, f) && final(tx)@ == old(tx)@,
                Ok(_) => {
                    &&& r is Ok
                    &&& final(tx)@ == drawn(old(tx)@)
                    &&& r->Ok_0@ == draft_of(
                        old(tx)@,
                        self@.config,
                        grant@,
                        mapped_or_none(opt_view(*mapped)),
                    )
                },
            },
    {
        let at = tx.now;
        let client = match get_client(tx, grant.client_id.as_str()) {
            Ok(c) => c,
            Err(e) => return Err(e),
        };
        if let Err(e) = crate::keyring::for_client(tx, &client) {
            return Err(e);
        }
        let ttl = match client.settings.access_token_ttl {
            Some(v) => v,
            None => self.config.access_token_ttl,
        };
        let expires_at = earlier(at.saturating_add(ttl), grant.expires_at);
        let mut own: Table<Json> = Table::new();
        let subject: String;
        if grant.identity.is_some() {
            match mapped {
                None => return Err(Error::Refused("identity".to_owned())),
                Some(m) => {
                    match m.get("sub") {
                        Some(Json::Text(s)) => {
                            subject = s.clone();
                        },
                        _ => return Err(Error::internal("Missing subject")),
                    }
                    own = m.dup();
                },
            }
        } else {
            subject = service_subject(grant);
            own.put("sub", text(subject.as_str()));
        }
        let scope = grant.scopes.join(" ");
        let mut claims: Table<Json> = if client.settings.claims_in_access_token {
            own
        } else {
            Table::new()
        };
        let jti = tx.id();
        claims.put(
            "iss",
            text(crate::issuer::for_client(self.config.issuer.as_str(), &client)),
        );
        claims.put("sub", text(subject.as_str()));
        claims.put("iat", Json::Unsigned(at));
        claims.put("exp", Json::Unsigned(expires_at));
        claims.put("jti", Json::Text(jti));
        claims.put("scope", text(scope.as_str()));
        match &grant.exchange {
            Some(x) => {
                claims.put("client_id", text(x.requester_id.as_str()));
                if let Some(act) = &x.act {
                    claims.put("act", act.dup());
                }
            },
            None => {
                claims.put("client_id", text(grant.client_id.as_str()));
            },
        }
        claims.put("aud", text(crate::resource::audience(grant)));
        if let Some(jkt) = &grant.confirmation_jkt {
            claims.put("cnf", crate::json::single("jkt", text(jkt.as_str())));
        }
        Ok(AccessDraft { claims, subject, scope, expires_at })
    }
}

/// The hash by which an ID token names its access token.
pub open spec fn token_hash(access: Seq<char>, algorithm: Seq<char>) -> Seq<char> {
    if algorithm == "EdDSA"@ {
        base64url_of(sha512_of(encode_utf8(access)).take(32))
    } else {
        base64url_of(sha256_of(encode_utf8(access)).take(16))
    }
}

fn hash_token(access: &str, algorithm: &str) -> (r: String)
    ensures
        r@ == token_hash(access@, algorithm@),
{
    let (mut hash, n): (Vec<u8>, usize) = if same(algorithm, "EdDSA") {
        (sha512(access.as_bytes()), 32)
    } else {
        (sha256(access.as_bytes()), 16)
    };
    let ghost whole = hash@;
    hash.truncate(n);
    assert(hash@ =~= whole.take(n as int));
    base64url(hash.as_slice())
}

/// The claims of an ID token. `acr` is the assurance that the login reached.
pub open spec fn id_claims(
    t: TxModel,
    cfg: ConfigModel,
    c: ClientModel,
    g: GrantModel,
    mapped: ClaimMap,
    subject: Seq<char>,
    expires_at: u64,
    access: Seq<char>,
    acr: Seq<char>,
) -> ClaimMap {
    let i = g.identity->0;
    let base = if c.settings.userinfo_only {
        Map::<Seq<char>, JsonModel>::empty().insert("sub"@, JsonModel::Text(subject))
    } else {
        mapped
    };
    let m = base.insert("iss"@, JsonModel::Text(issuer_of(cfg.issuer, c))).insert(
        "aud"@,
        JsonModel::Text(g.client_id),
    ).insert("iat"@, JsonModel::Unsigned(t.now)).insert("exp"@, JsonModel::Unsigned(expires_at));
    let m1 = if i.auth_time != 0 {
        m.insert("auth_time"@, JsonModel::Unsigned(i.auth_time))
    } else {
        m
    };
    let m2 = m1.insert("acr"@, JsonModel::Text(acr)).insert(
        "sid"@,
        JsonModel::Text(relying_sid(i.session_id, c.id)),
    ).insert("amr"@, texts_array(methods_of(i))).insert(
        "at_hash"@,
        JsonModel::Text(token_hash(access, (client_keys(t, c)->Ok_0).active.algorithm)),
    );
    let m3 = match g.nonce {
        Some(n) => m2.insert("nonce"@, JsonModel::Text(n)),
        None => m2,
    };
    match g.id_token_jkt {
        Some(jkt) => m3.insert("cnf"@, key_claim(jkt)),
        None => m3,
    }
}

/// What the token endpoint answers; the ID token is still to be signed.
pub struct Issued {
    pub access_token: String,
    pub token_type: String,
    pub expires_in: u64,
    pub scope: String,
    pub id_claims: Option<Table<Json>>,
    /// The type that the ID token's header names.
    pub id_token_type: String,
    pub refresh_token: Option<String>,
}

/// What a [`Issued`] holds.
pub struct IssuedModel {
    pub access_token: Seq<char>,
    pub token_type: Seq<char>,
    pub expires_in: u64,
    pub scope: Seq<char>,
    pub id_claims: Option<Map<Seq<char>, JsonModel>>,
    pub id_token_type: Seq<char>,
    pub refresh_token: Option<Seq<char>>,
}

impl View for Issued {
    type V = IssuedModel;

    open spec fn view(&self) -> IssuedModel {
        IssuedModel {
            access_token: self.access_token@,
            token_type: self.token_type@,
            expires_in: self.expires_in,
            scope: self.scope@,
            id_claims: crate::table::opt_view(self.id_claims),
            id_token_type: self.id_token_type@,
            refresh_token: crate::text::opt_text(self.refresh_token),
        }
    }
}

impl Row for Issued {
    fn dup(&self) -> (r: Self) {
        Issued {
            access_token: self.access_token.clone(),
            token_type: self.token_type.clone(),
            expires_in: self.expires_in,
            scope: self.scope.clone(),
            id_claims: crate::table::dup_opt(&self.id_claims),
            id_token_type: self.id_token_type.clone(),
            refresh_token: crate::text::copy_opt(&self.refresh_token),
        }
    }
}

/// A login grant that asks for an ID token.
pub open spec fn asks_id_token(g: GrantModel) -> bool {
    g.scopes.contains("openid"@) && g.identity is Some
}

/// A grant that gets a refresh token.
pub open spec fn asks_refresh(g: GrantModel, refresh: bool) -> bool {
    refresh && g.identity is Some && g.scopes.contains("offline_access"@)
}

/// The store after the tokens of a grant were issued.
pub open spec fn issued_store(
    t: TxModel,
    c: ClientModel,
    g: GrantModel,
    draft: AccessDraftModel,
    access: Seq<char>,
    refresh: bool,
) -> TxModel {
    let t1 = TxModel {
        access: t.access.insert(
            digest_of(access),
            GrantModel { issued_at: t.now, expires_at: draft.expires_at, used: false, ..g },
        ),
        ..t
    };
    let t2 = if asks_id_token(g) {
        let i = g.identity->0;
        TxModel {
            rp_sessions: t1.rp_sessions.insert(
                relying_sid(i.session_id, c.id),
                recorded(t1, c, i, draft.subject, g.expires_at),
            ),
            ..t1
        }
    } else {
        t1
    };
    let t3 = if asks_refresh(g, refresh) {
        TxModel {
            refresh: t2.refresh.insert(
                digest_of("ri_refresh_"@ + next_id(t2)),
                GrantModel { issued_at: t.now, used: false, ..g },
            ),
            ..drawn(t2)
        }
    } else {
        t2
    };
    audited(t3, draft.subject, "token.issued"@, g.client_id)
}

/// What the holder of a grant is answered once its access token is signed.
pub open spec fn issued_answer(
    t: TxModel,
    cfg: ConfigModel,
    g: GrantModel,
    draft: AccessDraftModel,
    mapped: ClaimMap,
    access: Seq<char>,
    acr: Seq<char>,
    refresh: bool,
) -> IssuedModel {
    IssuedModel {
        access_token: access,
        token_type: if g.confirmation_jkt is Some {
            "DPoP"@
        } else {
            "Bearer"@
        },
        expires_in: if draft.expires_at > t.now {
            (draft.expires_at - t.now) as u64
        } else {
            0
        },
        scope: draft.scope,
        id_claims: if asks_id_token(g) {
            Some(
                id_claims(
                    t,
                    cfg,
                    t.clients[g.client_id],
                    g,
                    mapped,
                    draft.subject,
                    draft.expires_at,
                    access,
                    acr,
                ),
            )
        } else {
            None
        },
        id_token_type: if g.id_token_jkt is Some {
            "dpop+id_token"@
        } else {
            "JWT"@
        },
        refresh_token: if asks_refresh(g, refresh) {
            Some("ri_refresh_"@ + next_id(t))
        } else {
            None
        },
    }
}

impl Core {
    /// Issues the tokens of a grant whose access token is signed: remembers it, drafts the ID token
    /// of a login, and draws a refresh token where the grant has offline access.
    pub fn issue_signed(
        &self,
        tx: &mut Tx,
        grant: &Grant,
        refresh: bool,
        draft: &AccessDraft,
        mapped: &Table<Json>,
        access: &str,
        acr: &str,
    ) -> (r: Result<Issued, Error>)
        ensures
            match client_keys(old(tx)@, old(tx)@.clients[grant@.client_id]) {
                _ if !active_client(old(tx)@, grant@.client_id) => fails(r, client_failure())
                    && final(tx)@ == old(tx)@,
                Err(f) => fails(r, f) && final(tx)@ == old(tx)@,
                Ok(_) => {
                    let t = old(tx)@;
                    let c = t.clients[grant@.client_id];
                    &&& r is Ok
                    &&& final(tx)@ == issued_store(t, c, grant@, draft@, access@, refresh)
                    &&& r->Ok_0@ == issued_answer(
                        t,
                        self@.config,
                        grant@,
                        draft@,
                        mapped@,
                        access@,
                        acr@,
                        refresh,
                    )
                },
            },
    {
        let at = tx.now;
        let client = match get_client(tx, grant.client_id.as_str()) {
            Ok(c) => c,
            Err(e) => return Err(e),
        };
        let algorithm = match crate::keyring::for_client(tx, &client) {
            Ok(k) => k.active.algorithm.clone(),
            Err(e) => return Err(e),
        };
        let mut access_grant = grant.dup();
        access_grant.issued_at = at;
        access_grant.expires_at = draft.expires_at;
        access_grant.used = false;
        let key = digest(access);
        tx.access.put(key.as_str(), access_grant);
        let mut claims: Option<Table<Json>> = None;
        if grant.scopes.contains("openid") {
            if let Some(identity) = &grant.identity {
                let mut fields: Table<Json> = if client.settings.userinfo_only {
                    let mut only: Table<Json> = Table::new();
                    only.put("sub", text(draft.subject.as_str()));
                    only
                } else {
                    mapped.dup()
                };
                fields.put(
                    "iss",
                    text(crate::issuer::for_client(self.config.issuer.as_str(), &client)),
                );
                fields.put("aud", text(grant.client_id.as_str()));
                fields.put("iat", Json::Unsigned(at));
                fields.put("exp", Json::Unsigned(draft.expires_at));
                if identity.auth_time != 0 {
                    fields.put("auth_time", Json::Unsigned(identity.auth_time));
                }
                fields.put("acr", text(acr));
                let sid = record(tx, &client, identity, draft.subject.as_str(), grant);
                fields.put("sid", text(sid.as_str()));
                let methods = identity.authentication_methods();
                fields.put("amr", text_array(&methods));
                fields.put("at_hash", Json::Text(hash_token(access, algorithm.as_str())));
                if let Some(nonce) = &grant.nonce {
                    fields.put("nonce", text(nonce.as_str()));
                }
                if let Some(jkt) = &grant.id_token_jkt {
                    fields.put("cnf", crate::json::single("jkt", text(jkt.as_str())));
                }
                claims = Some(fields);
            }
        }
        let mut refresh_token: Option<String> = None;
        if refresh && grant.identity.is_some() && grant.scopes.contains("offline_access") {
            let token = tx.random_token("ri_refresh_");
            let mut replacement = grant.dup();
            replacement.issued_at = at;
            replacement.used = false;
            let hash = digest(token.as_str());
            tx.refresh.put(hash.as_str(), replacement);
            refresh_token = Some(token);
        }
        audit(tx, draft.subject.as_str(), "token.issued", grant.client_id.as_str());
        Ok(
            Issued {
                access_token: access.to_owned(),
                token_type: (if grant.confirmation_jkt.is_some() {
                    "DPoP"
                } else {
                    "Bearer"
                }).to_owned(),
                expires_in: draft.expires_at.saturating_sub(at),
                scope: draft.scope.clone(),
                id_claims: claims,
                id_token_type: (if grant.id_token_jkt.is_some() {
                    "dpop+id_token"
                } else {
                    "JWT"
                }).to_owned(),
                refresh_token,
            },
        )
    }
}

impl Core {
    /// Issues the tokens of a grant. `sign` signs its access token with the key of its client; where
    /// that fails nothing is changed.
    pub fn issue<F: FnOnce(&AccessDraft) -> Result<String, Error>>(
        &self,
        tx: &mut Tx,
        grant: &Grant,
        refresh: bool,
        mapped: &Option<Table<Json>>,
        acr: &str,
        sign: F,
    ) -> (r: Result<Issued, Error>)
        requires
            forall|d: &AccessDraft|
                issue_check(old(tx)@, grant@, opt_view(*mapped)) is Ok && d@ == draft_of(
                    old(tx)@,
                    self@.config,
                    grant@,
                    mapped_or_none(opt_view(*mapped)),
                ) ==> #[trigger] sign.requires((d,)),
        ensures
            match issue_check(old(tx)@, grant@, opt_view(*mapped)) {
                Err(f) => fails(r, f) && final(tx)@ == old(tx)@,
                Ok(_) => exists|d: &AccessDraft, out: Result<String, Error>|
                    {
                        let t = old(tx)@;
                        let m = mapped_or_none(opt_view(*mapped));
                        &&& #[trigger] sign.ensures((d,), out)
                        &&& d@ == draft_of(t, self@.config, grant@, m)
                        &&& match out {
                            Err(e) => fails(r, e@) && final(tx)@ == t,
                            Ok(access) => {
                                &&& final(tx)@ == issued_store(
                                    drawn(t),
                                    t.clients[grant@.client_id],
                                    grant@,
                                    d@,
                                    access@,
                                    refresh,
                                )
                                &&& r is Ok
                                &&& r->Ok_0@ == issued_answer(
                                    drawn(t),
                                    self@.config,
                                    grant@,
                                    d@,
                                    m,
                                    access@,
                                    acr@,
                                    refresh,
                                )
                            },
                        }
                    },
            },
    {
        let ghost t = tx@;
        let drawn_before: u64 = tx.drawn;
        let draft = match self.draft_access(tx, grant, mapped) {
            Ok(d) => d,
            Err(e) => return Err(e),
        };
        let access = match sign(&draft) {
            Ok(a) => a,
            Err(e) => {
                tx.drawn = drawn_before;
                return Err(e);
            },
        };
        let none: Table<Json> = Table::new();
        assert(none@ =~= Map::empty());
        let own: &Table<Json> = match mapped {
            Some(m) => m,
            None => &none,
        };
        self.issue_signed(tx, grant, refresh, &draft, own, access.as_str(), acr)
    }
}

/// No token outlives the grant that it is issued for, and tokens of one grant share its family.
pub proof fn tokens_end_with_their_grant(
    t: TxModel,
    cfg: ConfigModel,
    g: GrantModel,
    mapped: ClaimMap,
    access: Seq<char>,
    refresh: bool,
)
    ensures
        ({
            let c = t.clients[g.client_id];
            let u = issued_store(drawn(t), c, g, draft_of(t, cfg, g, mapped), access, refresh);
            &&& u.access[digest_of(access)].expires_at <= g.expires_at
            &&& u.access[digest_of(access)].family_id == g.family_id
            &&& u.access[digest_of(access)].scopes == g.scopes
            &&& u.families == t.families
        }),
{
}

/// What a question about a token is answered. To a client that may not ask, and of a token that does
/// not stand, nothing is told.
pub open spec fn introspected(
    t: TxModel,
    cfg: ConfigModel,
    r: TokenRequestModel,
    verified: Option<AssertionClaimsModel>,
    s: StandingModel,
    subject: Seq<char>,
) -> (TxModel, Result<Option<IntrospectionModel>, Failure>) {
    if !authenticates(t, r, true, verified) {
        (t, Err(client_failure()))
    } else if !given(r.token) {
        (t, Err(Failure::Bad("Missing "@ + "token"@)))
    } else {
        let requester = t.clients[r.client_id->0];
        let g = grant_of(t, r.token->0);
        (
            authenticated(t, r, verified),
            Ok(
                if g is Some && chain_check(t, digest_of(r.token->0), g->0, 0, s) is Ok && manages(
                    requester,
                    t.clients[(g->0).client_id],
                    g->0,
                ) {
                    Some(described(cfg, t.clients[(g->0).client_id], g->0, subject))
                } else {
                    None
                },
            ),
        )
    }
}

/// What a request to revoke a token does. It ends the token's whole family, where the client may.
pub open spec fn token_revocation(
    t: TxModel,
    r: TokenRequestModel,
    verified: Option<AssertionClaimsModel>,
) -> (TxModel, Result<(), Failure>) {
    if !authenticates(t, r, false, verified) {
        (t, Err(client_failure()))
    } else if !given(r.token) {
        (t, Err(Failure::Bad("Missing "@ + "token"@)))
    } else {
        let c = t.clients[r.client_id->0];
        let t1 = authenticated(t, r, verified);
        let g = grant_of(t, r.token->0);
        (
            if g is Some && t.clients.dom().contains((g->0).client_id) && manages(
                c,
                t.clients[(g->0).client_id],
                g->0,
            ) && t.families.dom().contains((g->0).family_id) {
                audited(
                    family_revoked(t1, (g->0).family_id),
                    c.id,
                    "token.revoked"@,
                    (g->0).family_id,
                )
            } else {
                t1
            },
            Ok(()),
        )
    }
}

/// Who may ask about a token or revoke it: its owner, a registered manager, or the confidential
/// client that exchanged for it.
pub open spec fn manages(requester: ClientModel, owner: ClientModel, g: GrantModel) -> bool {
    requester.id == owner.id || is_confidential(requester) && (
    owner.settings.token_managers.contains(requester.id) || (g.exchange matches Some(x)
        && x.requester_id == requester.id))
}

pub fn token_manager(requester: &Client, owner: &Client, grant: &Grant) -> (r: bool)
    ensures
        r == manages(requester@, owner@, grant@),
{
    if same(requester.id.as_str(), owner.id.as_str()) {
        return true;
    }
    let exchanged = match &grant.exchange {
        Some(x) => same(x.requester_id.as_str(), requester.id.as_str()),
        None => false,
    };
    requester.confidential() && (owner.settings.token_managers.contains(requester.id.as_str())
        || exchanged)
}

/// The grant that a token stands for, access tokens first.
pub open spec fn grant_of(t: TxModel, token: Seq<char>) -> Option<GrantModel> {
    let key = digest_of(token);
    if t.access.dom().contains(key) {
        Some(t.access[key])
    } else if t.refresh.dom().contains(key) {
        Some(t.refresh[key])
    } else {
        None
    }
}

fn find_grant(tx: &Tx, key: &str) -> (r: Option<Grant>)
    ensures
        opt_view(r) == if tx@.access.dom().contains(key@) {
            Some(tx@.access[key@])
        } else if tx@.refresh.dom().contains(key@) {
            Some(tx@.refresh[key@])
        } else {
            None
        },
{
    match tx.access.get(key) {
        Some(g) => Some(g.dup()),
        None => match tx.refresh.get(key) {
            Some(g) => Some(g.dup()),
            None => None,
        },
    }
}

/// What an active token is described by.
pub struct Introspection {
    pub client_id: String,
    pub sub: String,
    pub scope: String,
    pub iss: String,
    pub aud: String,
    pub exp: u64,
    pub iat: u64,
    pub token_type: String,
    pub jkt: Option<String>,
    pub act: Option<Json>,
}

/// What a [`Introspection`] holds.
pub struct IntrospectionModel {
    pub client_id: Seq<char>,
    pub sub: Seq<char>,
    pub scope: Seq<char>,
    pub iss: Seq<char>,
    pub aud: Seq<char>,
    pub exp: u64,
    pub iat: u64,
    pub token_type: Seq<char>,
    pub jkt: Option<Seq<char>>,
    pub act: Option<JsonModel>,
}

impl View for Introspection {
    type V = IntrospectionModel;

    open spec fn view(&self) -> IntrospectionModel {
        IntrospectionModel {
            client_id: self.client_id@,
            sub: self.sub@,
            scope: self.scope@,
            iss: self.iss@,
            aud: self.aud@,
            exp: self.exp,
            iat: self.iat,
            token_type: self.token_type@,
            jkt: crate::text::opt_text(self.jkt),
            act: crate::table::opt_view(self.act),
        }
    }
}

impl Row for Introspection {
    fn dup(&self) -> (r: Self) {
        Introspection {
            client_id: self.client_id.clone(),
            sub: self.sub.clone(),
            scope: self.scope.clone(),
            iss: self.iss.clone(),
            aud: self.aud.clone(),
            exp: self.exp,
            iat: self.iat,
            token_type: self.token_type.clone(),
            jkt: crate::text::copy_opt(&self.jkt),
            act: crate::table::dup_opt(&self.act),
        }
    }
}

/// The description of a grant. `subject` names its user to its client.
pub open spec fn described(
    cfg: ConfigModel,
    c: ClientModel,
    g: GrantModel,
    subject: Seq<char>,
) -> IntrospectionModel {
    IntrospectionModel {
        client_id: match g.exchange {
            Some(x) => x.requester_id,
            None => g.client_id,
        },
        sub: if g.identity is Some {
            subject
        } else {
            service_name(g)
        },
        scope: joined(in_order(g.scopes), " "@),
        iss: issuer_of(cfg.issuer, c),
        aud: audience_of(g),
        exp: g.expires_at,
        iat: g.issued_at,
        token_type: if g.confirmation_jkt is Some {
            "DPoP"@
        } else {
            "Bearer"@
        },
        jkt: g.confirmation_jkt,
        act: match g.exchange {
            Some(x) => x.act,
            None => None,
        },
    }
}

impl Core {
    /// Describes a token to a client that may ask; to others, and once it does not stand, it is
    /// inactive (`None`). `subject` names the grant's user to the grant's client.
    pub fn introspect_with(
        &self,
        tx: &mut Tx,
        request: &TokenRequest,
        verified: &Option<AssertionClaims>,
        standing: &Standing,
        subject: &str,
    ) -> (r: Result<Option<Introspection>, Error>)
        ensures
            ({
                let out = introspected(
                    old(tx)@,
                    self@.config,
                    request@,
                    opt_view(*verified),
                    standing@,
                    subject@,
                );
                final(tx)@ == out.0 && match out.1 {
                    Ok(d) => r is Ok && opt_view(r->Ok_0) == d,
                    Err(f) => fails(r, f),
                }
            }),
    {
        let requester = match check_client(tx, request, true, verified) {
            Ok(c) => c,
            Err(e) => return Err(e),
        };
        let token = match required(&request.token, "token") {
            Ok(c) => c,
            Err(e) => return Err(e),
        };
        let key = digest(token);
        let found = find_grant(tx, key.as_str());
        let owner: Option<Client> = match &found {
            Some(g) => match self.validate_grant(tx, key.as_str(), g, standing) {
                Ok(c) => Some(c),
                Err(_) => None,
            },
            None => None,
        };
        note_client(tx, request, true, verified);
        match (found, owner) {
            (Some(grant), Some(client)) => {
                if !token_manager(&requester, &client, &grant) {
                    return Ok(None);
                }
                let sub = if grant.identity.is_some() {
                    subject.to_owned()
                } else {
                    service_subject(&grant)
                };
                let (client_id, act) = match &grant.exchange {
                    Some(x) => (x.requester_id.clone(), dup_opt(&x.act)),
                    None => (grant.client_id.clone(), None),
                };
                Ok(
                    Some(
                        Introspection {
                            client_id,
                            sub,
                            scope: grant.scopes.join(" "),
                            iss: crate::issuer::for_client(
                                self.config.issuer.as_str(),
                                &client,
                            ).to_owned(),
                            aud: crate::resource::audience(&grant).to_owned(),
                            exp: grant.expires_at,
                            iat: grant.issued_at,
                            token_type: (if grant.confirmation_jkt.is_some() {
                                "DPoP"
                            } else {
                                "Bearer"
                            }).to_owned(),
                            jkt: copy_opt(&grant.confirmation_jkt),
                            act,
                        },
                    ),
                )
            },
            _ => Ok(None),
        }
    }

    /// Revokes the family of a token, where the client may. The answer does not tell whether the
    /// token was known.
    pub fn revoke_with(&self, tx: &mut Tx, request: &TokenRequest, verified: &Option<AssertionClaims>) -> (r:
        Result<(), Error>)
        ensures
            ({
                let out = token_revocation(old(tx)@, request@, opt_view(*verified));
                final(tx)@ == out.0 && agrees(r, out.1)
            }),
    {
        let client = match check_client(tx, request, false, verified) {
            Ok(c) => c,
            Err(e) => return Err(e),
        };
        let token = match required(&request.token, "token") {
            Ok(c) => c,
            Err(e) => return Err(e),
        };
        let key = digest(token);
        let found = find_grant(tx, key.as_str());
        let managed = match &found {
            Some(g) => match tx.clients.get(g.client_id.as_str()) {
                Some(owner) => token_manager(&client, owner, g),
                None => false,
            },
            None => false,
        };
        note_client(tx, request, false, verified);
        if managed {
            if let Some(g) = found {
                if tx.families.has(g.family_id.as_str()) {
                    revoke_family(tx, g.family_id.as_str());
                    audit(tx, client.id.as_str(), "token.revoked", g.family_id.as_str());
                }
            }
        }
        Ok(())
    }
}

/// A token whose family is revoked does not stand, whatever else holds of it.
pub proof fn revoked_tokens_do_not_stand(
    t: TxModel,
    key: Seq<char>,
    g: GrantModel,
    family: Seq<char>,
    depth: nat,
    s: StandingModel,
)
    requires
        g.family_id == family,
        t.families.dom().contains(family),
    ensures
        chain_check(family_revoked(t, family), key, g, depth, s) is Err,
{
}

impl Core {
    /// Describes a token to a client that may ask; to others, and once it does not stand, it is
    /// inactive (`None`). `subject` names the grant's user to the grant's client.
    pub fn introspect(
        &self,
        tx: &mut Tx,
        request: &TokenRequest,
        standing: &Standing,
        subject: &str,
    ) -> (r: Result<Option<Introspection>, Error>)
        ensures
            exists|v: Option<AssertionClaimsModel>| #[trigger]
                claims_offered(old(tx)@, request@, v) && ({
                    let out = introspected(
                        old(tx)@,
                        self@.config,
                        request@,
                        v,
                        standing@,
                        subject@,
                    );
                    final(tx)@ == out.0 && match out.1 {
                        Ok(d) => r is Ok && opt_view(r->Ok_0) == d,
                        Err(f) => fails(r, f),
                    }
                }),
    {
        let verified = read_assertion(tx, request);
        assert(claims_offered(tx@, request@, opt_view(verified)));
        self.introspect_with(tx, request, &verified, standing, subject)
    }

    /// Revokes the family of a token, where the client may. The answer does not tell whether the
    /// token was known.
    pub fn revoke(&self, tx: &mut Tx, request: &TokenRequest) -> (r:
        Result<(), Error>)
        ensures
            exists|v: Option<AssertionClaimsModel>| #[trigger]
                claims_offered(old(tx)@, request@, v) && ({
                    let out = token_revocation(old(tx)@, request@, v);
                    final(tx)@ == out.0 && agrees(r, out.1)
                }),
    {
        let verified = read_assertion(tx, request);
        assert(claims_offered(tx@, request@, opt_view(verified)));
        self.revoke_with(tx, request, &verified)
    }
}

/// What an ID token says. It is addressed to the client of the grant, comes from that client's
/// issuer, names the subject that the user's claims name, ends when the access token ends, and carries
/// the nonce of the request, the login's session, methods and time, and the hash of the access token.
pub proof fn id_tokens_are_for_their_client(
    t: TxModel,
    cfg: ConfigModel,
    g: GrantModel,
    mapped: ClaimMap,
    access: Seq<char>,
    acr: Seq<char>,
    refresh: bool,
    subject: Seq<char>,
)
    requires
        issue_check(t, g, Some(mapped)) is Ok,
        g.scopes.contains("openid"@),
        g.identity is Some,
        mapped.dom().contains("sub"@),
        mapped["sub"@] == JsonModel::Text(subject),
    ensures
        ({
            let draft = draft_of(t, cfg, g, mapped);
            let out = issued_answer(drawn(t), cfg, g, draft, mapped, access, acr, refresh);
            let m = out.id_claims->0;
            let c = t.clients[g.client_id];
            let i = g.identity->0;
            let keys = match c.settings.signing_key {
                None => t.keys,
                Some(id) => if id == "signing"@ {
                    t.keys
                } else {
                    t.key_domains[id]
                },
            };
            &&& out.id_claims is Some
            &&& m.dom().contains("aud"@) && m["aud"@] == JsonModel::Text(g.client_id)
            &&& m.dom().contains("iss"@) && m["iss"@] == JsonModel::Text(
                if c.settings.issuer is Some {
                    c.settings.issuer->0
                } else {
                    cfg.issuer
                },
            )
            &&& m.dom().contains("sub"@) && m["sub"@] == JsonModel::Text(subject)
            &&& draft.subject == subject
            &&& m.dom().contains("exp"@) && m["exp"@] == JsonModel::Unsigned(draft.expires_at)
            &&& draft.claims["exp"@] == JsonModel::Unsigned(draft.expires_at)
            &&& m.dom().contains("iat"@) && m["iat"@] == JsonModel::Unsigned(t.now)
            &&& g.nonce matches Some(n) ==> m.dom().contains("nonce"@) && m["nonce"@]
                == JsonModel::Text(n)
            &&& i.auth_time != 0 ==> m.dom().contains("auth_time"@) && m["auth_time"@]
                == JsonModel::Unsigned(i.auth_time)
            &&& m.dom().contains("acr"@) && m["acr"@] == JsonModel::Text(acr)
            &&& m.dom().contains("sid"@) && m["sid"@] == JsonModel::Text(
                digest_of(i.session_id + "\0"@ + c.id),
            )
            &&& i.amr.len() > 0 ==> m["amr"@] == JsonModel::Array(
                i.amr.map_values(|x: Seq<char>| JsonModel::Text(x)),
            )
            &&& m.dom().contains("at_hash"@) && m["at_hash"@] == JsonModel::Text(
                if keys.active.algorithm == "EdDSA"@ {
                    base64url_of(sha512_of(encode_utf8(access)).subrange(0, 32))
                } else {
                    base64url_of(sha256_of(encode_utf8(access)).subrange(0, 16))
                },
            )
            &&& g.id_token_jkt matches Some(jkt) ==> m.dom().contains("cnf"@) && m["cnf"@]
                == JsonModel::Object(seq![("jkt"@, JsonModel::Text(jkt))])
            &&& out.id_token_type == if g.id_token_jkt is Some {
                "dpop+id_token"@
            } else {
                "JWT"@
            }
        }),
{
    lemma_claim_names();
    assert(client_keys(drawn(t), t.clients[g.client_id]) == client_keys(t, t.clients[g.client_id]));
}

/// The claims of a user are told in the ID token under their own names, unless the client wants them
/// at the user information endpoint only.
pub proof fn id_tokens_tell_the_mapped_claims(
    t: TxModel,
    cfg: ConfigModel,
    g: GrantModel,
    mapped: ClaimMap,
    access: Seq<char>,
    acr: Seq<char>,
    refresh: bool,
    name: Seq<char>,
)
    requires
        g.scopes.contains("openid"@),
        g.identity is Some,
        !protocol_claim(name),
        name != "sub"@,
    ensures
        ({
            let draft = draft_of(t, cfg, g, mapped);
            let m = issued_answer(drawn(t), cfg, g, draft, mapped, access, acr, refresh).id_claims->0;
            m.dom().contains(name) <==> !t.clients[g.client_id].settings.userinfo_only
                && mapped.dom().contains(name)
        }),
        ({
            let draft = draft_of(t, cfg, g, mapped);
            let m = issued_answer(drawn(t), cfg, g, draft, mapped, access, acr, refresh).id_claims->0;
            m.dom().contains(name) ==> m[name] == mapped[name]
        }),
{
}

/// A name that the protocol gives a meaning in a token.
pub open spec fn protocol_claim(name: Seq<char>) -> bool {
    name == "iss"@ || name == "aud"@ || name == "iat"@ || name == "exp"@ || name == "auth_time"@
        || name == "acr"@ || name == "sid"@ || name == "amr"@ || name == "at_hash"@ || name == "nonce"@
        || name == "cnf"@ || name == "jti"@ || name == "scope"@ || name == "client_id"@ || name
        == "act"@
}

proof fn lemma_claim_names()
    ensures
        "iss"@.len() == 3 && "iss"@[0] == 'i' && "iss"@[1] == 's',
        "aud"@.len() == 3 && "aud"@[0] == 'a' && "aud"@[1] == 'u',
        "iat"@.len() == 3 && "iat"@[0] == 'i' && "iat"@[1] == 'a',
        "exp"@.len() == 3 && "exp"@[0] == 'e',
        "acr"@.len() == 3 && "acr"@[0] == 'a' && "acr"@[2] == 'r',
        "act"@.len() == 3 && "act"@[0] == 'a' && "act"@[1] == 'c' && "act"@[2] == 't',
        "acr"@[1] == 'c',
        "amr"@.len() == 3 && "amr"@[0] == 'a' && "amr"@[1] == 'm',
        "sid"@.len() == 3 && "sid"@[0] == 's' && "sid"@[1] == 'i',
        "sub"@.len() == 3 && "sub"@[0] == 's' && "sub"@[1] == 'u',
        "cnf"@.len() == 3 && "cnf"@[0] == 'c',
        "jti"@.len() == 3 && "jti"@[0] == 'j',
        "nonce"@.len() == 5 && "nonce"@[0] == 'n',
        "scope"@.len() == 5 && "scope"@[0] == 's',
        "at_hash"@.len() == 7,
        "auth_time"@.len() == 9 && "auth_time"@[0] == 'a',
        "client_id"@.len() == 9 && "client_id"@[0] == 'c',
{
    reveal_strlit("iss");
    reveal_strlit("aud");
    reveal_strlit("iat");
    reveal_strlit("exp");
    reveal_strlit("acr");
    reveal_strlit("act");
    reveal_strlit("amr");
    reveal_strlit("sid");
    reveal_strlit("sub");
    reveal_strlit("cnf");
    reveal_strlit("jti");
    reveal_strlit("nonce");
    reveal_strlit("scope");
    reveal_strlit("at_hash");
    reveal_strlit("auth_time");
    reveal_strlit("client_id");
}

/// What an access token says. It is for the resource of the grant or for its client, names the
/// client that asked for it, the subject, the scopes and, in a delegation, who acts, and it is bound to
/// the key that was proved. It ends after the client's lifetime for access tokens, or with the grant if
/// that is sooner.
pub proof fn access_tokens_say_what_was_granted(
    t: TxModel,
    cfg: ConfigModel,
    g: GrantModel,
    mapped: Option<ClaimMap>,
    subject: Seq<char>,
)
    requires
        issue_check(t, g, mapped) is Ok,
        g.identity is Some ==> mapped->0["sub"@] == JsonModel::Text(subject),
        g.identity is None ==> subject == match g.exchange {
            Some(x) => match x.service_subject {
                Some(n) => n,
                None => "service:"@ + g.client_id,
            },
            None => "service:"@ + g.client_id,
        },
    ensures
        ({
            let draft = draft_of(t, cfg, g, mapped_or_none(mapped));
            let m = draft.claims;
            let c = t.clients[g.client_id];
            let ttl = if c.settings.access_token_ttl is Some {
                c.settings.access_token_ttl->0
            } else {
                cfg.access_token_ttl
            };
            &&& m.dom().contains("aud"@) && m["aud"@] == JsonModel::Text(
                if g.resource is Some {
                    g.resource->0
                } else {
                    g.client_id
                },
            )
            &&& m.dom().contains("iss"@) && m["iss"@] == JsonModel::Text(
                if c.settings.issuer is Some {
                    c.settings.issuer->0
                } else {
                    cfg.issuer
                },
            )
            &&& m.dom().contains("sub"@) && m["sub"@] == JsonModel::Text(subject)
            &&& draft.subject == subject
            &&& m.dom().contains("client_id"@) && m["client_id"@] == JsonModel::Text(
                if g.exchange is Some {
                    (g.exchange->0).requester_id
                } else {
                    g.client_id
                },
            )
            &&& m.dom().contains("scope"@) && m["scope"@] == JsonModel::Text(draft.scope)
            &&& draft.scope == joined(in_order(g.scopes), " "@)
            &&& m.dom().contains("iat"@) && m["iat"@] == JsonModel::Unsigned(t.now)
            &&& m.dom().contains("jti"@) && m["jti"@] == JsonModel::Text(next_id(t))
            &&& m.dom().contains("exp"@) && m["exp"@] == JsonModel::Unsigned(draft.expires_at)
            &&& draft.expires_at <= g.expires_at
            &&& draft.expires_at as int <= t.now + ttl
            &&& t.now + ttl <= u64::MAX ==> draft.expires_at as int == t.now + ttl || draft.expires_at
                == g.expires_at
            &&& g.exchange is Some && (g.exchange->0).act is Some ==> m["act"@] == (
            g.exchange->0).act->0
            &&& g.confirmation_jkt matches Some(jkt) ==> m.dom().contains("cnf"@) && m["cnf"@]
                == JsonModel::Object(seq![("jkt"@, JsonModel::Text(jkt))])
        }),
{
    lemma_claim_names();
}

/// What the token endpoint answers and keeps. A token bound to a key is told as such, any other is
/// a bearer token; it lasts from now to its end; and what is kept under the digest of the token is the
/// grant itself, unused, ending with the token.
pub proof fn issued_tokens_are_kept_with_their_grant(
    t: TxModel,
    cfg: ConfigModel,
    g: GrantModel,
    mapped: ClaimMap,
    access: Seq<char>,
    acr: Seq<char>,
    refresh: bool,
)
    requires
        issue_check(t, g, Some(mapped)) is Ok,
        t.now < g.expires_at,
    ensures
        ({
            let draft = draft_of(t, cfg, g, mapped);
            let out = issued_answer(drawn(t), cfg, g, draft, mapped, access, acr, refresh);
            let c = t.clients[g.client_id];
            let u = issued_store(drawn(t), c, g, draft, access, refresh);
            let kept = u.access[digest_of(access)];
            &&& out.access_token == access
            &&& out.token_type == if g.confirmation_jkt is Some {
                "DPoP"@
            } else {
                "Bearer"@
            }
            &&& out.expires_in as int == draft.expires_at - t.now
            &&& out.scope == draft.scope
            &&& u.access.dom().contains(digest_of(access))
            &&& kept.client_id == g.client_id
            &&& kept.identity == g.identity
            &&& kept.scopes == g.scopes
            &&& kept.resource == g.resource
            &&& kept.exchange == g.exchange
            &&& kept.family_id == g.family_id
            &&& kept.confirmation_jkt == g.confirmation_jkt
            &&& kept.machine_trust_hash == g.machine_trust_hash
            &&& !kept.used
            &&& kept.issued_at == t.now
            &&& kept.expires_at == draft.expires_at
            &&& u.audit.last() == (AuditModel {
                actor: draft.subject,
                action: "token.issued"@,
                target: g.client_id,
            })
        }),
{
}

/// A refresh token is given for a login with offline access where one is asked for, and only
/// there. It stands for the same grant, unused, until that grant ends.
pub proof fn refresh_tokens_are_given_for_offline_access(
    t: TxModel,
    cfg: ConfigModel,
    g: GrantModel,
    mapped: ClaimMap,
    access: Seq<char>,
    acr: Seq<char>,
    refresh: bool,
)
    ensures
        ({
            let draft = draft_of(t, cfg, g, mapped);
            let out = issued_answer(drawn(t), cfg, g, draft, mapped, access, acr, refresh);
            let u = issued_store(drawn(t), t.clients[g.client_id], g, draft, access, refresh);
            let offline = refresh && g.identity is Some && g.scopes.contains("offline_access"@);
            &&& out.refresh_token is Some <==> offline
            &&& offline ==> {
                let key = digest_of(out.refresh_token->0);
                &&& u.refresh.dom().contains(key)
                &&& u.refresh[key].family_id == g.family_id
                &&& u.refresh[key].identity == g.identity
                &&& u.refresh[key].scopes == g.scopes
                &&& u.refresh[key].client_id == g.client_id
                &&& u.refresh[key].expires_at == g.expires_at
                &&& !u.refresh[key].used
            }
            &&& !offline ==> u.refresh == t.refresh
        }),
{
}

/// A login that is told to a client is remembered as a session there, so that its end can be told too.
pub proof fn told_logins_are_remembered(
    t: TxModel,
    cfg: ConfigModel,
    g: GrantModel,
    mapped: ClaimMap,
    access: Seq<char>,
    refresh: bool,
)
    requires
        g.scopes.contains("openid"@),
        g.identity is Some,
    ensures
        ({
            let draft = draft_of(t, cfg, g, mapped);
            let c = t.clients[g.client_id];
            let i = g.identity->0;
            let u = issued_store(drawn(t), c, g, draft, access, refresh);
            let sid = digest_of(i.session_id + "\0"@ + c.id);
            let rp = u.rp_sessions[sid];
            &&& u.rp_sessions.dom().contains(sid)
            &&& rp.sid == sid
            &&& rp.session_id == i.session_id
            &&& rp.user_id == i.user_id
            &&& rp.client_id == c.id
            &&& rp.subject == draft.subject
            &&& !rp.ended
            &&& rp.expires_at >= g.expires_at
            &&& !t.rp_sessions.dom().contains(sid) ==> rp.created_at == t.now && rp.expires_at
                == g.expires_at
        }),
{
}

/// Whoever owns a token is told what it stands for while it stands: who it is for, who asked for it,
/// its scopes, its end, and who acts with it.
pub proof fn owners_are_told_about_their_tokens(
    t: TxModel,
    cfg: ConfigModel,
    r: TokenRequestModel,
    s: StandingModel,
    subject: Seq<char>,
)
    requires
        authenticates(t, r, true, None),
        r.client_assertion is None && r.client_assertion_type is None,
        r.token is Some && (r.token->0).len() > 0,
        t.access.dom().contains(digest_of(r.token->0)),
        chain_check(t, digest_of(r.token->0), t.access[digest_of(r.token->0)], 0, s) is Ok,
        t.clients[t.access[digest_of(r.token->0)].client_id].id == t.clients[r.client_id->0].id,
    ensures
        ({
            let out = introspected(t, cfg, r, None, s, subject);
            let g = t.access[digest_of(r.token->0)];
            let c = t.clients[g.client_id];
            let d = (out.1->Ok_0)->0;
            &&& out.0 == t
            &&& out.1 is Ok && out.1->Ok_0 is Some
            &&& d.exp == g.expires_at
            &&& d.iat == g.issued_at
            &&& d.scope == joined(in_order(g.scopes), " "@)
            &&& d.aud == if g.resource is Some {
                g.resource->0
            } else {
                g.client_id
            }
            &&& d.client_id == if g.exchange is Some {
                (g.exchange->0).requester_id
            } else {
                g.client_id
            }
            &&& d.iss == if c.settings.issuer is Some {
                c.settings.issuer->0
            } else {
                cfg.issuer
            }
            &&& g.identity is Some ==> d.sub == subject
            &&& g.identity is None && g.exchange is None ==> d.sub == "service:"@ + g.client_id
            &&& d.jkt == g.confirmation_jkt
            &&& d.token_type == if g.confirmation_jkt is Some {
                "DPoP"@
            } else {
                "Bearer"@
            }
            &&& d.act == if g.exchange is Some {
                (g.exchange->0).act
            } else {
                None
            }
        }),
{
}

/// Nobody is told about a token that does not stand, or that is neither theirs nor theirs to manage.
pub proof fn others_are_told_nothing(
    t: TxModel,
    cfg: ConfigModel,
    r: TokenRequestModel,
    verified: Option<AssertionClaimsModel>,
    s: StandingModel,
    subject: Seq<char>,
)
    requires
        introspected(t, cfg, r, verified, s, subject).1 matches Ok(Some(_)),
    ensures
        ({
            let key = digest_of(r.token->0);
            let g = if t.access.dom().contains(key) {
                t.access[key]
            } else {
                t.refresh[key]
            };
            let requester = t.clients[r.client_id->0];
            let owner = t.clients[g.client_id];
            &&& t.access.dom().contains(key) || t.refresh.dom().contains(key)
            &&& chain_check(t, key, g, 0, s) is Ok
            &&& g.expires_at > t.now
            &&& requester.id == owner.id || owner.settings.token_managers.contains(requester.id) || (
            g.exchange matches Some(x) && x.requester_id == requester.id)
        }),
{
}

/// A client that revokes its token ends the token's family, and nothing else: no token of that
/// family stands afterwards.
pub proof fn revoking_ends_the_family(
    t: TxModel,
    r: TokenRequestModel,
    other: Seq<char>,
    g: GrantModel,
    s: StandingModel,
)
    requires
        authenticates(t, r, false, None),
        r.client_assertion is None && r.client_assertion_type is None,
        r.token is Some && (r.token->0).len() > 0,
        t.access.dom().contains(digest_of(r.token->0)),
        t.clients.dom().contains(t.access[digest_of(r.token->0)].client_id),
        t.clients[t.access[digest_of(r.token->0)].client_id].id == t.clients[r.client_id->0].id,
        t.families.dom().contains(t.access[digest_of(r.token->0)].family_id),
        g.family_id == t.access[digest_of(r.token->0)].family_id,
    ensures
        ({
            let out = token_revocation(t, r, None);
            &&& out.1 is Ok
            &&& out.0.families[g.family_id].revoked
            &&& forall|k: Seq<char>| k != g.family_id ==> #[trigger] out.0.families[k] == t.families[k]
            &&& out.0.access == t.access && out.0.refresh == t.refresh
            &&& local_check(out.0, other, g, s) is Err
            &&& out.0.audit.last().action == "token.revoked"@
        }),
{
}

/// Nothing is told and nothing is ended for a client that does not authenticate, and a token that is
/// another's stays as it is.
pub proof fn strangers_change_nothing(
    t: TxModel,
    cfg: ConfigModel,
    r: TokenRequestModel,
    verified: Option<AssertionClaimsModel>,
    s: StandingModel,
    subject: Seq<char>,
)
    ensures
        !authenticates(t, r, true, verified) ==> introspected(t, cfg, r, verified, s, subject) == (
            t,
            Err::<Option<IntrospectionModel>, Failure>(
                Failure::Reply(401, "invalid_client"@, "Client authentication failed"@),
            ),
        ),
        !authenticates(t, r, false, verified) ==> token_revocation(t, r, verified) == (
            t,
            Err::<(), Failure>(Failure::Reply(401, "invalid_client"@, "Client authentication failed"@)),
        ),
        introspected(t, cfg, r, verified, s, subject).0.families == t.families,
        introspected(t, cfg, r, verified, s, subject).0.access == t.access,
        introspected(t, cfg, r, verified, s, subject).0.refresh == t.refresh,
        ({
            let key = digest_of(r.token->0);
            let g = if t.access.dom().contains(key) {
                t.access[key]
            } else {
                t.refresh[key]
            };
            let requester = t.clients[r.client_id->0];
            let owner = t.clients[g.client_id];
            requester.id != owner.id && !owner.settings.token_managers.contains(requester.id)
                && g.exchange is None ==> token_revocation(t, r, verified).0.families == t.families
        }),
        token_revocation(t, r, verified).1 is Ok <==> authenticates(t, r, false, verified)
            && r.token is Some && (r.token->0).len() > 0,
{
}

/// An access token names who acts only if somebody does, and the key that it is bound to only if it is
/// bound.
pub proof fn access_tokens_name_an_actor_only_where_there_is_one(
    t: TxModel,
    cfg: ConfigModel,
    c: ClientModel,
    g: GrantModel,
    mapped: ClaimMap,
)
    requires
        !c.settings.claims_in_access_token,
    ensures
        access_claims(t, cfg, c, g, mapped).dom().contains("act"@) <==> g.exchange is Some && (
        g.exchange->0).act is Some,
        access_claims(t, cfg, c, g, mapped).dom().contains("cnf"@) <==> g.confirmation_jkt is Some,
{
    reveal_strlit("iss");
    reveal_strlit("sub");
    reveal_strlit("iat");
    reveal_strlit("exp");
    reveal_strlit("jti");
    reveal_strlit("scope");
    reveal_strlit("client_id");
    reveal_strlit("act");
    reveal_strlit("aud");
    reveal_strlit("cnf");
    assert("act"@.len() == 3 && "act"@[0] == 'a' && "act"@[1] == 'c');
    assert("cnf"@.len() == 3 && "cnf"@[0] == 'c');
    assert("iss"@[0] == 'i' && "sub"@[0] == 's' && "iat"@[0] == 'i' && "exp"@[0] == 'e' && "jti"@[0] == 'j');
    assert("aud"@[0] == 'a' && "aud"@[1] == 'u');
    assert("scope"@.len() == 5 && "client_id"@.len() == 9);
}

} // verus!
