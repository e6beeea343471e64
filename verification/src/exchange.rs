//! Exchange of access tokens between mutually trusting clients.
use crate::engine::{ConfigModel, Core, audit, audited, drawn, earlier};
use crate::error::{Error, Failure, agrees, agrees_with, and_also};
use crate::issuer::issuer_of;
use crate::jose::{AssertionClaims, AssertionClaimsModel, JWT_GRANT, MachineTrust, MachineTrustModel, PublicJwk, PublicJwkModel, PublicJwks, addressed, assertion_check, assertion_used, check_assertion, header_of, note_assertion, pinned_key, token_claims, token_stands};
use crate::json::{Json, JsonModel, Member, items_of, json_text, lemma_items_of, lemma_members, lemma_members_of, member, member_models, members_of, text, text_array, texts_array, to_text};
use crate::model::{AuditModel, Client, ClientModel, Grant, GrantModel, is_confidential};
use crate::names::{Names, in_order};
use crate::oidc::{Proof, ProofModel, Standing, StandingModel, TokenRequest, TokenRequestModel, active_client, authenticated, authenticates, check_client, claims_given, claims_offered, client_failure, family_opened, fresh_grant, get_client, local_check, note_client, opt_proof, proof_failure, proved, read_assertion, requested_scopes, scope_request, scope_words, token_audience, token_endpoint};
use crate::oidc::issue::{ClaimMap, Issued, IssuedModel, draft_of, issued_answer};
use crate::outside::{digest, digest_of};
use crate::provider::{grant_allowed, grant_check};
use crate::resource::{check_bind, invalid_target, resource_check, resource_uri, validate_uri};
use crate::store::{Tx, TxModel};
use crate::table::{Row, dup_opt, opt_view, views};
use crate::text::{byte_count, concat, copy_opt, joined, opt_is, opt_text, same, same_opt, texts};
use crate::oidc::verify_now;
use vstd::prelude::*;
use vstd::string::*;

verus! {

pub const TOKEN_EXCHANGE: &'static str = "urn:ietf:params:oauth:grant-type:token-exchange";

pub const ACCESS_TOKEN: &'static str = "urn:ietf:params:oauth:token-type:access_token";

/// Which tokens a client may exchange, and for whom.
pub struct ExchangePolicy {
    pub subject_clients: Names,
    pub target_clients: Names,
    pub scopes: Names,
    pub allow_impersonation: bool,
    pub allow_delegation: bool,
}

/// What a [`ExchangePolicy`] holds.
pub struct ExchangePolicyModel {
    pub subject_clients: Set<Seq<char>>,
    pub target_clients: Set<Seq<char>>,
    pub scopes: Set<Seq<char>>,
    pub allow_impersonation: bool,
    pub allow_delegation: bool,
}

impl View for ExchangePolicy {
    type V = ExchangePolicyModel;

    open spec fn view(&self) -> ExchangePolicyModel {
        ExchangePolicyModel {
            subject_clients: self.subject_clients@,
            target_clients: self.target_clients@,
            scopes: self.scopes@,
            allow_impersonation: self.allow_impersonation,
            allow_delegation: self.allow_delegation,
        }
    }
}

impl Row for ExchangePolicy {
    fn dup(&self) -> (r: Self) {
        ExchangePolicy {
            subject_clients: self.subject_clients.copy(),
            target_clients: self.target_clients.copy(),
            scopes: self.scopes.copy(),
            allow_impersonation: self.allow_impersonation,
            allow_delegation: self.allow_delegation,
        }
    }
}

/// Where an exchanged grant comes from.
pub struct ExchangeGrant {
    pub requester_id: String,
    pub subject_hash: String,
    pub actor_hash: Option<String>,
    pub act: Option<Json>,
    pub service_subject: Option<String>,
}

/// What a [`ExchangeGrant`] holds.
pub struct ExchangeGrantModel {
    pub requester_id: Seq<char>,
    pub subject_hash: Seq<char>,
    pub actor_hash: Option<Seq<char>>,
    pub act: Option<JsonModel>,
    pub service_subject: Option<Seq<char>>,
}

impl View for ExchangeGrant {
    type V = ExchangeGrantModel;

    open spec fn view(&self) -> ExchangeGrantModel {
        ExchangeGrantModel {
            requester_id: self.requester_id@,
            subject_hash: self.subject_hash@,
            actor_hash: crate::text::opt_text(self.actor_hash),
            act: crate::table::opt_view(self.act),
            service_subject: crate::text::opt_text(self.service_subject),
        }
    }
}

impl Row for ExchangeGrant {
    fn dup(&self) -> (r: Self) {
        ExchangeGrant {
            requester_id: self.requester_id.clone(),
            subject_hash: self.subject_hash.clone(),
            actor_hash: crate::text::copy_opt(&self.actor_hash),
            act: crate::table::dup_opt(&self.act),
            service_subject: crate::text::copy_opt(&self.service_subject),
        }
    }
}

pub open spec fn exchange_failure() -> Failure {
    Failure::Oauth("invalid_grant"@, "Exchange proof is invalid, expired or revoked"@)
}

fn invalid() -> (e: Error)
    ensures
        e@ == exchange_failure(),
{
    Error::oauth("invalid_grant", "Exchange proof is invalid, expired or revoked")
}

/// Both sides trust each other for this exchange.
pub open spec fn trusted_exchange(
    requester: ClientModel,
    target: ClientModel,
    policy: ExchangePolicyModel,
    subject: GrantModel,
    delegation: bool,
) -> bool {
    &&& subject.identity is Some || target.service
    &&& target.settings.exchange_from.contains(requester.id)
    &&& policy.subject_clients.contains(subject.client_id)
    &&& policy.target_clients.contains(target.id)
    &&& if delegation {
        policy.allow_delegation
    } else {
        policy.allow_impersonation
    }
}

/// The scopes were held before, and none of them opens a login or a refresh.
pub open spec fn narrowing(
    requester: ClientModel,
    policy: ExchangePolicyModel,
    subject: GrantModel,
    scopes: Set<Seq<char>>,
) -> bool {
    &&& !scopes.contains("openid"@)
    &&& !scopes.contains("bound_key"@)
    &&& !scopes.contains("offline_access"@)
    &&& scopes.subset_of(policy.scopes)
    &&& scopes.subset_of(subject.scopes)
    &&& scopes.subset_of(requester.scopes)
}

pub open spec fn policy_check(
    requester: ClientModel,
    target: ClientModel,
    policy: ExchangePolicyModel,
    subject: GrantModel,
    scopes: Set<Seq<char>>,
    delegation: bool,
) -> Result<(), Failure> {
    if !trusted_exchange(requester, target, policy, subject, delegation) {
        Err(
            Failure::Oauth(
                "unauthorized_client"@,
                "Exchange is outside the bilateral trust policy"@,
            ),
        )
    } else if !narrowing(requester, policy, subject, scopes) {
        Err(
            Failure::Oauth(
                "invalid_scope"@,
                "Exchange cannot expand scopes or create login/refresh credentials"@,
            ),
        )
    } else {
        Ok(())
    }
}

pub fn check_policy(
    requester: &Client,
    target: &Client,
    policy: &ExchangePolicy,
    subject: &Grant,
    scopes: &Names,
    delegation: bool,
) -> (r: Result<(), Error>)
    ensures
        agrees(r, policy_check(requester@, target@, policy@, subject@, scopes@, delegation)),
{
    let refused = if delegation {
        !policy.allow_delegation
    } else {
        !policy.allow_impersonation
    };
    if (subject.identity.is_none() && !target.service) || !target.settings.exchange_from.contains(
        requester.id.as_str(),
    ) || !policy.subject_clients.contains(subject.client_id.as_str())
        || !policy.target_clients.contains(target.id.as_str()) || refused {
        return Err(
            Error::oauth("unauthorized_client", "Exchange is outside the bilateral trust policy"),
        );
    }
    if scopes.contains("openid") || scopes.contains("bound_key") || scopes.contains("offline_access")
        || !scopes.is_subset(&policy.scopes) || !scopes.is_subset(&subject.scopes)
        || !scopes.is_subset(&requester.scopes) {
        return Err(
            Error::oauth(
                "invalid_scope",
                "Exchange cannot expand scopes or create login/refresh credentials",
            ),
        );
    }
    Ok(())
}

/// The actor of a delegation: the requester itself, as a service, with a token of its own.
pub open spec fn own_actor(actor: GrantModel, requester_id: Seq<char>) -> bool {
    actor.client_id == requester_id && actor.identity is None && actor.exchange is None
}

/// Whether a grant stands with everything that it was exchanged from, at most four exchanges back.
pub open spec fn chain_check(
    t: TxModel,
    key: Seq<char>,
    g: GrantModel,
    depth: nat,
    s: StandingModel,
) -> Result<(), Failure>
    decreases 5 - depth,
{
    if depth > 4 {
        Err(exchange_failure())
    } else if local_check(t, key, g, s) is Err {
        local_check(t, key, g, s)
    } else {
        match g.exchange {
            None => Ok(()),
            Some(x) => if !active_client(t, x.requester_id) {
                Err(client_failure())
            } else {
                let requester = t.clients[x.requester_id];
                if !is_confidential(requester) {
                    Err(exchange_failure())
                } else if grant_check(requester, TOKEN_EXCHANGE@) is Err {
                    grant_check(requester, TOKEN_EXCHANGE@)
                } else if requester.settings.exchange is None || !t.access.dom().contains(
                    x.subject_hash,
                ) {
                    Err(exchange_failure())
                } else {
                    let subject = t.access[x.subject_hash];
                    and_also(
                        chain_check(t, x.subject_hash, subject, depth + 1, s),
                        and_also(
                            policy_check(
                                requester,
                                t.clients[g.client_id],
                                requester.settings.exchange->0,
                                subject,
                                g.scopes,
                                x.actor_hash is Some,
                            ),
                            match x.actor_hash {
                                None => Ok(()),
                                Some(hash) => if !t.access.dom().contains(hash) {
                                    Err(exchange_failure())
                                } else {
                                    and_also(
                                        chain_check(t, hash, t.access[hash], depth + 1, s),
                                        if own_actor(t.access[hash], requester.id) {
                                            Ok(())
                                        } else {
                                            Err(exchange_failure())
                                        },
                                    )
                                },
                            },
                        ),
                    )
                }
            },
        }
    }
}

impl Core {
    pub fn validate_grant_chain(
        &self,
        tx: &Tx,
        key: &str,
        grant: &Grant,
        depth: usize,
        standing: &Standing,
    ) -> (r: Result<Client, Error>)
        ensures
            match chain_check(tx@, key@, grant@, depth as nat, standing@) {
                Ok(_) => r is Ok && r->Ok_0@ == tx@.clients[grant@.client_id],
                Err(f) => r is Err && r->Err_0@ == f,
            },
        decreases 5 - depth,
    {
        if depth > 4 {
            return Err(invalid());
        }
        let client = match self.validate_grant_local(tx, key, grant, standing) {
            Ok(c) => c,
            Err(e) => return Err(e),
        };
        if let Some(exchange) = &grant.exchange {
            let requester = match get_client(tx, exchange.requester_id.as_str()) {
                Ok(c) => c,
                Err(e) => return Err(e),
            };
            if !requester.confidential() {
                return Err(invalid());
            }
            if let Err(e) = grant_allowed(&requester, TOKEN_EXCHANGE) {
                return Err(e);
            }
            let policy = match &requester.settings.exchange {
                Some(p) => p,
                None => return Err(invalid()),
            };
            let subject = match tx.access.get(exchange.subject_hash.as_str()) {
                Some(g) => g,
                None => return Err(invalid()),
            };
            if let Err(e) = self.validate_grant_chain(
                tx,
                exchange.subject_hash.as_str(),
                subject,
                depth + 1,
                standing,
            ) {
                return Err(e);
            }
            if let Err(e) = check_policy(
                &requester,
                &client,
                policy,
                subject,
                &grant.scopes,
                exchange.actor_hash.is_some(),
            ) {
                return Err(e);
            }
            if let Some(hash) = &exchange.actor_hash {
                let actor = match tx.access.get(hash.as_str()) {
                    Some(g) => g,
                    None => return Err(invalid()),
                };
                if let Err(e) = self.validate_grant_chain(
                    tx,
                    hash.as_str(),
                    actor,
                    depth + 1,
                    standing,
                ) {
                    return Err(e);
                }
                if !same(actor.client_id.as_str(), requester.id.as_str()) || actor.identity.is_some()
                    || actor.exchange.is_some() {
                    return Err(invalid());
                }
            }
        }
        Ok(client)
    }
}

/// The grant that `g` was exchanged from, `n` exchanges back.
pub open spec fn ancestor(t: TxModel, g: GrantModel, n: nat) -> GrantModel
    decreases n,
{
    if n == 0 || g.exchange is None {
        g
    } else {
        ancestor(t, t.access[(g.exchange->0).subject_hash], (n - 1) as nat)
    }
}

/// A grant that stands goes back to a login in at most four exchanges, and holds only
/// scopes that every grant on the way held. It carries no login or refresh scope unless it is
/// that login's own.
pub proof fn exchange_never_expands(
    t: TxModel,
    key: Seq<char>,
    g: GrantModel,
    depth: nat,
    s: StandingModel,
)
    requires
        chain_check(t, key, g, depth, s) is Ok,
    ensures
        ancestor(t, g, (4 - depth) as nat).exchange is None,
        forall|n: nat| g.scopes.subset_of(#[trigger] ancestor(t, g, n).scopes),
        g.exchange is Some ==> !g.scopes.contains("openid"@) && !g.scopes.contains(
            "offline_access"@,
        ),
    decreases 5 - depth,
{
    if g.exchange is Some {
        let hash = (g.exchange->0).subject_hash;
        let subject = t.access[hash];
        assert(chain_check(t, hash, subject, depth + 1, s) is Ok);
        exchange_never_expands(t, hash, subject, depth + 1, s);
        assert(g.scopes.subset_of(subject.scopes));
        assert forall|n: nat| g.scopes.subset_of(#[trigger] ancestor(t, g, n).scopes) by {
            if n > 0 {
                assert(subject.scopes.subset_of(ancestor(t, subject, (n - 1) as nat).scopes));
            }
        }
        if depth == 4 {
            assert(chain_check(t, hash, subject, 5, s) is Err);
        } else {
            assert(ancestor(t, g, (4 - depth) as nat) == ancestor(
                t,
                subject,
                (4 - (depth + 1)) as nat,
            ));
        }
    }
}

/// A client that a resource can be reached at by this requester.
pub open spec fn serves_resource(t: TxModel, requester: ClientModel, resource: Seq<char>) -> spec_fn(
    Seq<char>,
) -> bool {
    |k: Seq<char>|
        t.clients[k].enabled && t.clients[k].settings.resources.dom().contains(resource)
            && requester.settings.exchange is Some
            && (requester.settings.exchange->0).target_clients.contains(t.clients[k].id)
}

/// The client that an exchange is for: the audience, or the only one that serves the resource.
pub open spec fn exchange_target(t: TxModel, requester: ClientModel, r: TokenRequestModel) -> Result<
    Seq<char>,
    Failure,
> {
    if r.audience is Some {
        Ok(r.audience->0)
    } else if r.resource is None || !resource_uri(r.resource->0) {
        Err(invalid_target())
    } else {
        let serving = in_order(t.clients.dom()).filter(
            serves_resource(t, requester, r.resource->0),
        );
        if serving.len() == 1 {
            Ok(t.clients[serving[0]].id)
        } else {
            Err(invalid_target())
        }
    }
}

#[verifier::loop_isolation(false)]
fn find_target(tx: &Tx, requester: &Client, request: &TokenRequest) -> (r: Result<String, Error>)
    ensures
        agrees_with(r, exchange_target(tx@, requester@, request@)),
{
    if let Some(a) = &request.audience {
        return Ok(a.clone());
    }
    let resource = match &request.resource {
        Some(x) => x.as_str(),
        None => return Err(crate::resource::invalid()),
    };
    if let Err(e) = validate_uri(resource) {
        return Err(e);
    }
    let keys = tx.clients.keys();
    let ghost all = in_order(keys@);
    let ghost p = serves_resource(tx@, requester@, resource@);
    let n: usize = keys.len();
    let mut found: Vec<String> = Vec::new();
    let mut ids: Vec<String> = Vec::new();
    let mut i: usize = 0;
    assert(texts(found@) =~= all.take(0).filter(p));
    while i < n
        invariant
            i <= n,
            texts(found@) == all.take(i as int).filter(p),
            found.len() == ids.len(),
            forall|j: int|
                0 <= j < found.len() ==> tx@.clients[(#[trigger] found@[j])@].id == ids@[j]@,
        decreases n - i,
    {
        let k = keys.at(i);
        let ghost was = texts(found@);
        proof {
            assert(all.take(i + 1) =~= all.take(i as int).push(k@));
            all.take(i as int).lemma_filter_push(k@, p);
        }
        if let Some(c) = tx.clients.get(k.as_str()) {
            let targeted = match &requester.settings.exchange {
                Some(x) => x.target_clients.contains(c.id.as_str()),
                None => false,
            };
            if c.enabled && c.settings.resources.has(resource) && targeted {
                found.push(k.clone());
                ids.push(c.id.clone());
                assert(texts(found@) =~= was.push(k@));
            }
        }
        i = i + 1;
    }
    assert(all.take(i as int) =~= all);
    assert(texts(found@).len() == found.len());
    if found.len() != 1 {
        return Err(crate::resource::invalid());
    }
    assert(texts(found@)[0] == found@[0]@);
    Ok(ids[0].clone())
}

/// Who acts in an exchange, and until when and with which key.
pub struct Acting {
    pub hash: Option<String>,
    pub act: Option<Json>,
    pub expires_at: u64,
    pub jkt: Option<String>,
}

/// What a [`Acting`] holds.
pub struct ActingModel {
    pub hash: Option<Seq<char>>,
    pub act: Option<JsonModel>,
    pub expires_at: u64,
    pub jkt: Option<Seq<char>>,
}

impl View for Acting {
    type V = ActingModel;

    open spec fn view(&self) -> ActingModel {
        ActingModel {
            hash: crate::text::opt_text(self.hash),
            act: crate::table::opt_view(self.act),
            expires_at: self.expires_at,
            jkt: crate::text::opt_text(self.jkt),
        }
    }
}

impl Row for Acting {
    fn dup(&self) -> (r: Self) {
        Acting {
            hash: crate::text::copy_opt(&self.hash),
            act: crate::table::dup_opt(&self.act),
            expires_at: self.expires_at,
            jkt: crate::text::copy_opt(&self.jkt),
        }
    }
}

/// The actor claim of a delegation: the requester, acting for whoever acted before.
pub open spec fn actor_claim(
    cfg: ConfigModel,
    requester: ClientModel,
    before: Option<JsonModel>,
) -> JsonModel {
    let own = seq![
        ("sub"@, JsonModel::Text("service:"@ + requester.id)),
        ("iss"@, JsonModel::Text(issuer_of(cfg.issuer, requester))),
    ];
    match before {
        Some(a) => JsonModel::Object(own.push(("act"@, a))),
        None => JsonModel::Object(own),
    }
}

/// The actor chain that a grant already carries.
pub open spec fn carried_act(g: GrantModel) -> Option<JsonModel> {
    match g.exchange {
        Some(x) => x.act,
        None => None,
    }
}

/// The actor of an exchange, or why there is none. Delegation takes a token of the requester's own.
pub open spec fn acting_check(
    t: TxModel,
    cfg: ConfigModel,
    requester: ClientModel,
    subject: GrantModel,
    r: TokenRequestModel,
    s: StandingModel,
) -> Result<ActingModel, Failure> {
    match r.actor_token {
        None => if r.actor_token_type is Some {
            Err(exchange_failure())
        } else {
            Ok(
                ActingModel {
                    hash: None,
                    act: carried_act(subject),
                    expires_at: subject.expires_at,
                    jkt: None,
                },
            )
        },
        Some(token) => {
            let hash = digest_of(token);
            if r.actor_token_type != Some(ACCESS_TOKEN@) || !t.access.dom().contains(hash) || chain_check(
                t,
                hash,
                t.access[hash],
                0,
                s,
            ) is Err || !own_actor(t.access[hash], requester.id) {
                Err(exchange_failure())
            } else {
                Ok(
                    ActingModel {
                        hash: Some(hash),
                        act: Some(actor_claim(cfg, requester, carried_act(subject))),
                        expires_at: t.access[hash].expires_at,
                        jkt: t.access[hash].confirmation_jkt,
                    },
                )
            }
        },
    }
}

/// The actor claim of a delegation as a value.
fn make_actor_claim(core: &Core, requester: &Client, before: &Option<Json>) -> (r: Json)
    ensures
        r@ == actor_claim(core@.config, requester@, opt_view(*before)),
{
    let mut v: Vec<Member> = Vec::new();
    v.push(
        Member {
            key: "sub".to_owned(),
            value: Json::Text(concat("service:", requester.id.as_str())),
        },
    );
    v.push(
        Member {
            key: "iss".to_owned(),
            value: text(crate::issuer::for_client(core.config.issuer.as_str(), requester)),
        },
    );
    if let Some(a) = before {
        v.push(Member { key: "act".to_owned(), value: a.dup() });
    }
    proof {
        lemma_members(v, v.len() as nat);
        let m = member_models(v, v.len() as nat);
        match opt_view(*before) {
            Some(a) => {
                assert(m =~= seq![
                    ("sub"@, JsonModel::Text("service:"@ + requester@.id)),
                    ("iss"@, JsonModel::Text(issuer_of(core@.config.issuer, requester@))),
                ].push(("act"@, a)));
            },
            None => {
                assert(m =~= seq![
                    ("sub"@, JsonModel::Text("service:"@ + requester@.id)),
                    ("iss"@, JsonModel::Text(issuer_of(core@.config.issuer, requester@))),
                ]);
            },
        }
    }
    Json::Object(v)
}

/// Everything that an exchange needs before its proof of possession is looked at.
pub struct ExchangePlanModel {
    pub requester: ClientModel,
    pub target: ClientModel,
    pub subject: GrantModel,
    pub source_id: Seq<char>,
    pub scopes: Set<Seq<char>>,
    pub acting: ActingModel,
}

/// The parts of an exchange, or why it is refused before the proof of possession.
pub open spec fn exchange_plan(
    t: TxModel,
    cfg: ConfigModel,
    r: TokenRequestModel,
    verified: Option<AssertionClaimsModel>,
    s: StandingModel,
) -> Result<ExchangePlanModel, Failure> {
    if !authenticates(t, r, true, verified) {
        Err(client_failure())
    } else {
        let requester = t.clients[r.client_id->0];
        if grant_check(requester, TOKEN_EXCHANGE@) is Err {
            Err(grant_check(requester, TOKEN_EXCHANGE@)->Err_0)
        } else if r.subject_token_type != Some(ACCESS_TOKEN@) || (r.requested_token_type is Some
            && r.requested_token_type != Some(ACCESS_TOKEN@)) {
            Err(Failure::Oauth("invalid_request"@, "Exchange accepts and issues access tokens"@))
        } else if exchange_target(t, requester, r) is Err {
            Err(exchange_target(t, requester, r)->Err_0)
        } else {
            let target_id = exchange_target(t, requester, r)->Ok_0;
            if !active_client(t, target_id) {
                Err(Failure::Oauth("invalid_target"@, "Unknown target"@))
            } else if requester.settings.exchange is None {
                Err(Failure::Oauth("unauthorized_client"@, "Client has no exchange policy"@))
            } else if r.subject_token is None || !t.access.dom().contains(
                digest_of(r.subject_token->0),
            ) {
                Err(exchange_failure())
            } else {
                subject_plan(t, cfg, requester, target_id, r, s)
            }
        }
    }
}

/// The rest of the plan, once the requester, the target and the subject token are known.
pub open spec fn subject_plan(
    t: TxModel,
    cfg: ConfigModel,
    requester: ClientModel,
    target_id: Seq<char>,
    r: TokenRequestModel,
    s: StandingModel,
) -> Result<ExchangePlanModel, Failure> {
    let target = t.clients[target_id];
    let hash = digest_of(r.subject_token->0);
    let subject = t.access[hash];
    let policy = requester.settings.exchange->0;
    let asked = requested_scopes(r.scope->0, target);
    if chain_check(t, hash, subject, 0, s) is Err {
        Err(exchange_failure())
    } else if r.scope is None {
        Err(Failure::Oauth("invalid_scope"@, "Exchange requires explicit scopes"@))
    } else if asked is Err {
        Err(asked->Err_0)
    } else if policy_check(requester, target, policy, subject, asked->Ok_0, r.actor_token is Some) is Err {
        Err(
            policy_check(
                requester,
                target,
                policy,
                subject,
                asked->Ok_0,
                r.actor_token is Some,
            )->Err_0,
        )
    } else if acting_check(t, cfg, requester, subject, r, s) is Err {
        Err(acting_check(t, cfg, requester, subject, r, s)->Err_0)
    } else if chain_check(t, hash, subject, 1, s) is Err {
        Err(exchange_failure())
    } else if resource_check(target, r.resource, asked->Ok_0) is Err {
        Err(resource_check(target, r.resource, asked->Ok_0)->Err_0)
    } else {
        Ok(
            ExchangePlanModel {
                requester,
                target,
                subject,
                source_id: t.clients[subject.client_id].id,
                scopes: asked->Ok_0,
                acting: acting_check(t, cfg, requester, subject, r, s)->Ok_0,
            },
        )
    }
}

/// The key that the new token must be bound to: the parents' key, which must be one.
pub open spec fn parent_key(subject: Option<Seq<char>>, actor: Option<Seq<char>>) -> Result<
    Option<Seq<char>>,
    Failure,
> {
    if subject is Some && actor is Some && subject != actor {
        Err(exchange_failure())
    } else if subject is Some {
        Ok(subject)
    } else {
        Ok(actor)
    }
}

/// Whether the proof of possession binds the new token as its parents and the clients ask.
pub open spec fn possession_check(
    requester: ClientModel,
    target: ClientModel,
    subject: Option<Seq<char>>,
    actor: Option<Seq<char>>,
    possession: Option<ProofModel>,
) -> Result<(), Failure> {
    if parent_key(subject, actor) is Err {
        Err(exchange_failure())
    } else if possession is None {
        Err(proof_failure())
    } else {
        let jkt = (possession->0).confirmation_jkt;
        if (subject is Some && jkt != subject) || (actor is Some && jkt != actor) {
            Err(exchange_failure())
        } else if (requester.settings.dpop_bound_access_tokens
            || target.settings.dpop_bound_access_tokens) && jkt is None {
            Err(
                Failure::Oauth(
                    "invalid_dpop_proof"@,
                    "Invalid, stale, mismatched or replayed DPoP proof"@,
                ),
            )
        } else {
            Ok(())
        }
    }
}

/// The smallest of three times.
pub open spec fn soonest(a: u64, b: u64, c: u64) -> u64 {
    let m = if a <= b {
        a
    } else {
        b
    };
    if m <= c {
        m
    } else {
        c
    }
}

/// The grant of an exchange.
pub open spec fn exchanged_grant(
    t: TxModel,
    cfg: ConfigModel,
    p: ExchangePlanModel,
    r: TokenRequestModel,
    possession: ProofModel,
) -> GrantModel {
    let g = proved(
        fresh_grant(t, cfg, p.target, p.subject.identity, p.scopes, None),
        possession,
    );
    GrantModel {
        resource: r.resource,
        expires_at: soonest(g.expires_at, p.subject.expires_at, p.acting.expires_at),
        exchange: Some(
            ExchangeGrantModel {
                requester_id: p.requester.id,
                subject_hash: digest_of(r.subject_token->0),
                actor_hash: p.acting.hash,
                act: p.acting.act,
                service_subject: if p.subject.identity is None {
                    Some(
                        match p.subject.exchange {
                            Some(x) => match x.service_subject {
                                Some(n) => n,
                                None => "service:"@ + p.source_id,
                            },
                            None => "service:"@ + p.source_id,
                        },
                    )
                } else {
                    None
                },
            },
        ),
        ..g
    }
}

/// What an exchange leaves in the store and answers.
pub open spec fn token_exchange(
    t: TxModel,
    cfg: ConfigModel,
    r: TokenRequestModel,
    verified: Option<AssertionClaimsModel>,
    possession: Option<ProofModel>,
    s: StandingModel,
) -> (TxModel, Result<GrantModel, Failure>) {
    match exchange_plan(t, cfg, r, verified, s) {
        Err(f) => (t, Err(f)),
        Ok(p) => match possession_check(
            p.requester,
            p.target,
            p.subject.confirmation_jkt,
            p.acting.jkt,
            possession,
        ) {
            Err(f) => (t, Err(f)),
            Ok(_) => {
                let t1 = authenticated(t, r, verified);
                let first = fresh_grant(t1, cfg, p.target, p.subject.identity, p.scopes, None);
                let t2 = family_opened(t1, first.expires_at);
                (t2, Ok(exchanged_grant(t1, cfg, p, r, possession->0)))
            },
        },
    }
}

/// What an exchange is answered: an access token and its kind, and nothing to log in or to refresh
/// with.
pub struct ExchangeAnswer {
    pub access_token: String,
    pub token_type: String,
    pub expires_in: u64,
    pub scope: String,
    pub issued_token_type: String,
}

/// What a [`ExchangeAnswer`] holds.
pub struct ExchangeAnswerModel {
    pub access_token: Seq<char>,
    pub token_type: Seq<char>,
    pub expires_in: u64,
    pub scope: Seq<char>,
    pub issued_token_type: Seq<char>,
}

impl View for ExchangeAnswer {
    type V = ExchangeAnswerModel;

    open spec fn view(&self) -> ExchangeAnswerModel {
        ExchangeAnswerModel {
            access_token: self.access_token@,
            token_type: self.token_type@,
            expires_in: self.expires_in,
            scope: self.scope@,
            issued_token_type: self.issued_token_type@,
        }
    }
}

impl Row for ExchangeAnswer {
    fn dup(&self) -> (r: Self) {
        ExchangeAnswer {
            access_token: self.access_token.clone(),
            token_type: self.token_type.clone(),
            expires_in: self.expires_in,
            scope: self.scope.clone(),
            issued_token_type: self.issued_token_type.clone(),
        }
    }
}

/// The answer to an exchange whose tokens are `i`.
pub open spec fn exchange_answer(i: IssuedModel) -> ExchangeAnswerModel {
    ExchangeAnswerModel {
        access_token: i.access_token,
        token_type: i.token_type,
        expires_in: i.expires_in,
        scope: i.scope,
        issued_token_type: ACCESS_TOKEN@,
    }
}

impl Core {
    /// Answers an exchange with the tokens that were issued for its grant, and notes who exchanged
    /// for which client.
    pub fn answer_exchange(&self, tx: &mut Tx, grant: &Grant, issued: &Issued) -> (r: ExchangeAnswer)
        ensures
            final(tx)@ == exchange_noted(old(tx)@, grant@),
            r@ == exchange_answer(issued@),
    {
        if let Some(x) = &grant.exchange {
            audit(tx, x.requester_id.as_str(), "token.exchanged", grant.client_id.as_str());
        }
        ExchangeAnswer {
            access_token: issued.access_token.clone(),
            token_type: issued.token_type.clone(),
            expires_in: issued.expires_in,
            scope: issued.scope.clone(),
            issued_token_type: ACCESS_TOKEN.to_owned(),
        }
    }
}

/// The store after an exchange for the grant `g` was answered.
pub open spec fn exchange_noted(t: TxModel, g: GrantModel) -> TxModel {
    match g.exchange {
        Some(x) => audited(t, x.requester_id, "token.exchanged"@, g.client_id),
        None => t,
    }
}

/// An exchange gives an access token and nothing else: no ID token and no refresh token is issued
/// for its grant, so its answer leaves nothing out.
pub proof fn exchanges_give_access_tokens_only(
    t: TxModel,
    cfg: ConfigModel,
    r: TokenRequestModel,
    verified: Option<AssertionClaimsModel>,
    possession: Option<ProofModel>,
    s: StandingModel,
    mapped: ClaimMap,
    access: Seq<char>,
    acr: Seq<char>,
)
    requires
        token_exchange(t, cfg, r, verified, possession, s).1 is Ok,
    ensures
        ({
            let out = token_exchange(t, cfg, r, verified, possession, s);
            let g = out.1->Ok_0;
            let i = issued_answer(
                drawn(out.0),
                cfg,
                g,
                draft_of(out.0, cfg, g, mapped),
                mapped,
                access,
                acr,
                false,
            );
            &&& i.refresh_token is None
            &&& i.id_claims is None
            &&& exchange_answer(i).issued_token_type == ACCESS_TOKEN@
            &&& exchange_answer(i).access_token == access
            &&& exchange_answer(i).scope == joined(in_order(g.scopes), " "@)
        }),
{
}

fn find_acting(
    core: &Core,
    tx: &Tx,
    requester: &Client,
    subject: &Grant,
    request: &TokenRequest,
    standing: &Standing,
) -> (r: Result<Acting, Error>)
    ensures
        agrees_with(
            r,
            acting_check(tx@, core@.config, requester@, subject@, request@, standing@),
        ),
{
    let before: Option<Json> = match &subject.exchange {
        Some(x) => dup_opt(&x.act),
        None => None,
    };
    match &request.actor_token {
        None => {
            if request.actor_token_type.is_some() {
                return Err(invalid());
            }
            Ok(Acting { hash: None, act: before, expires_at: subject.expires_at, jkt: None })
        },
        Some(token) => {
            if !opt_is(&request.actor_token_type, ACCESS_TOKEN) {
                return Err(invalid());
            }
            let hash = digest(token.as_str());
            let actor = match tx.access.get(hash.as_str()) {
                Some(g) => g,
                None => return Err(invalid()),
            };
            if let Err(_) = core.validate_grant_chain(tx, hash.as_str(), actor, 0, standing) {
                return Err(invalid());
            }
            if !same(actor.client_id.as_str(), requester.id.as_str()) || actor.identity.is_some()
                || actor.exchange.is_some() {
                return Err(invalid());
            }
            let act = make_actor_claim(core, requester, &before);
            Ok(
                Acting {
                    hash: Some(hash),
                    act: Some(act),
                    expires_at: actor.expires_at,
                    jkt: copy_opt(&actor.confirmation_jkt),
                },
            )
        },
    }
}

fn check_possession(
    requester: &Client,
    target: &Client,
    subject: &Option<String>,
    actor: &Option<String>,
    possession: Option<&Proof>,
) -> (r: Result<(), Error>)
    ensures
        agrees(
            r,
            possession_check(
                requester@,
                target@,
                opt_text(*subject),
                opt_text(*actor),
                opt_proof(possession),
            ),
        ),
{
    if subject.is_some() && actor.is_some() && !same_opt(subject, actor) {
        return Err(invalid());
    }
    let bound = match possession {
        Some(p) => p,
        None => return Err(Error::Refused("dpop".to_owned())),
    };
    if subject.is_some() && !same_opt(&bound.confirmation_jkt, subject) {
        return Err(invalid());
    }
    if actor.is_some() && !same_opt(&bound.confirmation_jkt, actor) {
        return Err(invalid());
    }
    if (requester.settings.dpop_bound_access_tokens || target.settings.dpop_bound_access_tokens)
        && bound.confirmation_jkt.is_none() {
        return Err(
            Error::oauth(
                "invalid_dpop_proof",
                "Invalid, stale, mismatched or replayed DPoP proof",
            ),
        );
    }
    Ok(())
}

impl Core {
    /// Exchanges an access token for one at another client. The answer is the grant that the caller
    /// issues an access token for in the same transaction. `possession` is what the proof of
    /// possession binds it to, checked against the requester, the target and the parents' key.
    pub fn exchange_token_with(
        &self,
        tx: &mut Tx,
        request: &TokenRequest,
        verified: &Option<AssertionClaims>,
        possession: Option<&Proof>,
        standing: &Standing,
    ) -> (r: Result<Grant, Error>)
        ensures
            ({
                let out = token_exchange(
                    old(tx)@,
                    self@.config,
                    request@,
                    opt_view(*verified),
                    opt_proof(possession),
                    standing@,
                );
                final(tx)@ == out.0 && agrees_with(r, out.1)
            }),
    {
        let requester = match check_client(tx, request, true, verified) {
            Ok(c) => c,
            Err(e) => return Err(e),
        };
        if let Err(e) = grant_allowed(&requester, TOKEN_EXCHANGE) {
            return Err(e);
        }
        let other_type = request.requested_token_type.is_some() && !opt_is(
            &request.requested_token_type,
            ACCESS_TOKEN,
        );
        if !opt_is(&request.subject_token_type, ACCESS_TOKEN) || other_type {
            return Err(
                Error::oauth("invalid_request", "Exchange accepts and issues access tokens"),
            );
        }
        let target_id = match find_target(tx, &requester, request) {
            Ok(t) => t,
            Err(e) => return Err(e),
        };
        let target = match get_client(tx, target_id.as_str()) {
            Ok(c) => c,
            Err(_) => return Err(Error::oauth("invalid_target", "Unknown target")),
        };
        let policy = match &requester.settings.exchange {
            Some(p) => p.dup(),
            None => return Err(
                Error::oauth("unauthorized_client", "Client has no exchange policy"),
            ),
        };
        let subject_hash = match &request.subject_token {
            Some(x) => digest(x.as_str()),
            None => return Err(invalid()),
        };
        let subject = match tx.access.get(subject_hash.as_str()) {
            Some(g) => g.dup(),
            None => return Err(invalid()),
        };
        let source = match self.validate_grant_chain(
            tx,
            subject_hash.as_str(),
            &subject,
            0,
            standing,
        ) {
            Ok(c) => c,
            Err(_) => return Err(invalid()),
        };
        let scope = match &request.scope {
            Some(s) => s.as_str(),
            None => return Err(Error::oauth("invalid_scope", "Exchange requires explicit scopes")),
        };
        let scopes = match scope_request(scope, &target) {
            Ok(s) => s,
            Err(e) => return Err(e),
        };
        if let Err(e) = check_policy(
            &requester,
            &target,
            &policy,
            &subject,
            &scopes,
            request.actor_token.is_some(),
        ) {
            return Err(e);
        }
        let acting = match find_acting(self, tx, &requester, &subject, request, standing) {
            Ok(a) => a,
            Err(e) => return Err(e),
        };
        // At most four exchanges: the limit is checked before the new grant is made.
        if let Err(_) = self.validate_grant_chain(tx, subject_hash.as_str(), &subject, 1, standing) {
            return Err(invalid());
        }
        let asked = match &request.resource {
            Some(x) => Some(x.as_str()),
            None => None,
        };
        if let Err(e) = check_bind(&target, &scopes, asked, asked) {
            return Err(e);
        }
        if let Err(e) = check_possession(
            &requester,
            &target,
            &subject.confirmation_jkt,
            &acting.jkt,
            possession,
        ) {
            return Err(e);
        }
        let bound = match possession {
            Some(p) => p,
            None => return Err(Error::Refused("dpop".to_owned())),
        };
        note_client(tx, request, true, verified);
        let mut grant = self.new_grant(tx, &target, dup_opt(&subject.identity), scopes, None);
        grant.confirmation_jkt = copy_opt(&bound.confirmation_jkt);
        grant.id_token_jkt = copy_opt(&bound.id_token_jkt);
        grant.resource = copy_opt(&request.resource);
        grant.expires_at = earlier(earlier(grant.expires_at, subject.expires_at), acting.expires_at);
        let service_subject: Option<String> = if subject.identity.is_none() {
            let inherited = match &subject.exchange {
                Some(x) => copy_opt(&x.service_subject),
                None => None,
            };
            match inherited {
                Some(n) => Some(n),
                None => Some(concat("service:", source.id.as_str())),
            }
        } else {
            None
        };
        grant.exchange = Some(
            ExchangeGrant {
                requester_id: requester.id.clone(),
                subject_hash,
                actor_hash: acting.hash,
                act: acting.act,
                service_subject,
            },
        );
        Ok(grant)
    }
}

/// An exchanged grant holds no scope that its subject did not hold, ends no later than it, keeps its
/// identity, and keeps the key that it was bound to.
pub proof fn exchanged_grants_are_narrower(
    t: TxModel,
    cfg: ConfigModel,
    r: TokenRequestModel,
    verified: Option<AssertionClaimsModel>,
    possession: Option<ProofModel>,
    s: StandingModel,
)
    requires
        token_exchange(t, cfg, r, verified, possession, s).1 is Ok,
    ensures
        ({
            let g = token_exchange(t, cfg, r, verified, possession, s).1->Ok_0;
            let subject = t.access[digest_of(r.subject_token->0)];
            &&& g.scopes.subset_of(subject.scopes)
            &&& g.expires_at <= subject.expires_at
            &&& g.identity == subject.identity
            &&& subject.confirmation_jkt is Some ==> g.confirmation_jkt == subject.confirmation_jkt
            &&& !g.scopes.contains("openid"@) && !g.scopes.contains("offline_access"@)
        }),
{
}

/// A workload assertion and what its verification gave, for one of a client's trusts.
pub struct TrustProof {
    /// The claims, where the assertion verified under the trust's keys, issuer and audience.
    pub claims: Option<AssertionClaims>,
    /// The digest of the trust.
    pub hash: String,
}

/// What a [`TrustProof`] holds.
pub struct TrustProofModel {
    pub claims: Option<AssertionClaimsModel>,
    pub hash: Seq<char>,
}

impl View for TrustProof {
    type V = TrustProofModel;

    open spec fn view(&self) -> TrustProofModel {
        TrustProofModel {
            claims: crate::table::opt_view(self.claims),
            hash: self.hash@,
        }
    }
}

impl Row for TrustProof {
    fn dup(&self) -> (r: Self) {
        TrustProof {
            claims: crate::table::dup_opt(&self.claims),
            hash: self.hash.clone(),
        }
    }
}

/// The assertion verified under the trust at `i` and names its subject.
pub open spec fn trust_holds(c: ClientModel, proofs: Seq<TrustProofModel>, i: int) -> bool {
    0 <= i < c.settings.machine_trust.len() && i < proofs.len() && proofs[i].claims is Some && (
    proofs[i].claims->0).sub == Some(c.settings.machine_trust[i].subject)
}

/// The first trust that the assertion verified under.
pub open spec fn first_trust(c: ClientModel, proofs: Seq<TrustProofModel>, from: int) -> Option<int>
    decreases c.settings.machine_trust.len() - from,
{
    if from < 0 || from >= c.settings.machine_trust.len() {
        None
    } else if trust_holds(c, proofs, from) {
        Some(from)
    } else {
        first_trust(c, proofs, from + 1)
    }
}

/// The namespace in which a workload's assertions are remembered.
pub open spec fn machine_namespace(cid: Seq<char>) -> Seq<char> {
    "machine:"@ + cid
}

/// The request carries client credentials beside its assertion.
pub open spec fn extra_credentials(r: TokenRequestModel) -> bool {
    r.client_secret is Some || r.client_assertion is Some || r.client_assertion_type is Some
}

/// The store after the extra credentials of a machine request were used.
pub open spec fn machine_authenticated(
    t: TxModel,
    r: TokenRequestModel,
    verified: Option<AssertionClaimsModel>,
) -> TxModel {
    if extra_credentials(r) {
        authenticated(t, r, verified)
    } else {
        t
    }
}

/// What a machine request leaves in the store and answers.
pub open spec fn machine_exchange(
    t: TxModel,
    cfg: ConfigModel,
    r: TokenRequestModel,
    verified: Option<AssertionClaimsModel>,
    proofs: Seq<TrustProofModel>,
    possession: Option<ProofModel>,
) -> (TxModel, Result<GrantModel, Failure>) {
    if r.client_id is None {
        (t, Err(exchange_failure()))
    } else if !active_client(t, r.client_id->0) {
        (t, Err(client_failure()))
    } else {
        let c = t.clients[r.client_id->0];
        let asked = requested_scopes(r.scope->0, c);
        let found = first_trust(c, proofs, 0);
        if grant_check(c, JWT_GRANT@) is Err {
            (t, Err(grant_check(c, JWT_GRANT@)->Err_0))
        } else if !c.service {
            (
                t,
                Err(
                    Failure::Oauth(
                        "unauthorized_client"@,
                        "JWT grants are machine identities"@,
                    ),
                ),
            )
        } else if extra_credentials(r) && !authenticates(t, r, true, verified) {
            (t, Err(client_failure()))
        } else if r.assertion is None || found is None {
            (t, Err(exchange_failure()))
        } else if r.scope is None {
            (
                t,
                Err(Failure::Oauth("invalid_scope"@, "Machine grants require explicit scopes"@)),
            )
        } else if asked is Err {
            (t, Err(asked->Err_0))
        } else if !(asked->Ok_0).subset_of(c.settings.machine_trust[found->0].scopes) {
            (t, Err(Failure::Oauth("invalid_scope"@, "Scope is outside the workload trust"@)))
        } else {
            let claims = proofs[found->0].claims->0;
            let t1 = machine_authenticated(t, r, verified);
            if assertion_check(t1, claims, machine_namespace(c.id)) is Err {
                (t, Err(exchange_failure()))
            } else if resource_check(c, r.resource, asked->Ok_0) is Err {
                (t, Err(resource_check(c, r.resource, asked->Ok_0)->Err_0))
            } else {
                let t2 = assertion_used(t1, claims, machine_namespace(c.id));
                let g = fresh_grant(t2, cfg, c, None, asked->Ok_0, None);
                let expires_at = if g.expires_at <= claims.exp->0 {
                    g.expires_at
                } else {
                    claims.exp->0
                };
                if expires_at <= t.now {
                    (t, Err(exchange_failure()))
                } else if possession is None {
                    (t, Err(proof_failure()))
                } else {
                    (
                        family_opened(t2, g.expires_at),
                        Ok(
                            GrantModel {
                                resource: r.resource,
                                machine_trust_hash: Some(proofs[found->0].hash),
                                expires_at,
                                ..proved(g, possession->0)
                            },
                        ),
                    )
                }
            }
        }
    }
}

fn find_trust(client: &Client, proofs: &Vec<TrustProof>) -> (r: Option<usize>)
    ensures
        match r {
            Some(i) => first_trust(client@, views(proofs@), 0) == Some(i as int) && trust_holds(
                client@,
                views(proofs@),
                i as int,
            ),
            None => first_trust(client@, views(proofs@), 0) is None,
        },
{
    let list = &client.settings.machine_trust;
    let ghost all = views(proofs@);
    let mut i: usize = 0;
    while i < list.len()
        invariant
            i <= list.len(),
            list == &client.settings.machine_trust,
            all == views(proofs@),
            first_trust(client@, all, 0) == first_trust(client@, all, i as int),
        decreases list.len() - i,
    {
        assert(client@.settings.machine_trust[i as int] == list@[i as int]@);
        if i < proofs.len() {
            assert(all[i as int] == proofs@[i as int]@);
            if let Some(claims) = &proofs[i].claims {
                if opt_is(&claims.sub, list[i].subject.as_str()) {
                    return Some(i);
                }
            }
        }
        i = i + 1;
    }
    None
}

impl Core {
    /// A grant for a workload whose assertion one of the client's trusts accepts. `proofs` holds
    /// what the verification of the assertion gave for each trust.
    pub fn machine_token_with(
        &self,
        tx: &mut Tx,
        request: &TokenRequest,
        verified: &Option<AssertionClaims>,
        proofs: &Vec<TrustProof>,
        possession: Option<&Proof>,
    ) -> (r: Result<Grant, Error>)
        ensures
            ({
                let out = machine_exchange(
                    old(tx)@,
                    self@.config,
                    request@,
                    opt_view(*verified),
                    views(proofs@),
                    opt_proof(possession),
                );
                final(tx)@ == out.0 && agrees_with(r, out.1)
            }),
    {
        let cid = match &request.client_id {
            Some(c) => c.as_str(),
            None => return Err(invalid()),
        };
        let client = match get_client(tx, cid) {
            Ok(c) => c,
            Err(e) => return Err(e),
        };
        if let Err(e) = grant_allowed(&client, JWT_GRANT) {
            return Err(e);
        }
        if !client.service {
            return Err(Error::oauth("unauthorized_client", "JWT grants are machine identities"));
        }
        let extra = request.client_secret.is_some() || request.client_assertion.is_some()
            || request.client_assertion_type.is_some();
        if extra {
            if let Err(e) = check_client(tx, request, true, verified) {
                return Err(e);
            }
        }
        if request.assertion.is_none() {
            return Err(invalid());
        }
        let found = match find_trust(&client, proofs) {
            Some(i) => i,
            None => return Err(invalid()),
        };
        assert(views(proofs@)[found as int] == proofs@[found as int]@);
        assert(client@.settings.machine_trust[found as int]
            == client.settings.machine_trust@[found as int]@);
        let scope = match &request.scope {
            Some(s) => s.as_str(),
            None => return Err(
                Error::oauth("invalid_scope", "Machine grants require explicit scopes"),
            ),
        };
        let scopes = match scope_request(scope, &client) {
            Ok(s) => s,
            Err(e) => return Err(e),
        };
        if !scopes.is_subset(&client.settings.machine_trust[found].scopes) {
            return Err(Error::oauth("invalid_scope", "Scope is outside the workload trust"));
        }
        let claims = match &proofs[found].claims {
            Some(c) => c,
            None => return Err(invalid()),
        };
        let namespace = concat("machine:", client.id.as_str());
        let asked = match &request.resource {
            Some(x) => Some(x.as_str()),
            None => None,
        };
        let replays = tx.assertion_replays.dup();
        if extra {
            note_client(tx, request, true, verified);
        }
        if let Err(_) = check_assertion(tx, claims, namespace.as_str()) {
            tx.assertion_replays = replays;
            return Err(invalid());
        }
        let exp = match claims.exp {
            Some(e) => e,
            None => {
                tx.assertion_replays = replays;
                return Err(invalid());
            },
        };
        if let Err(e) = check_bind(&client, &scopes, asked, asked) {
            tx.assertion_replays = replays;
            return Err(e);
        }
        let ttl = match client.settings.access_token_ttl {
            Some(v) => v,
            None => self.config.access_token_ttl,
        };
        let expires_at = earlier(tx.now.saturating_add(ttl), exp);
        if expires_at <= tx.now {
            tx.assertion_replays = replays;
            return Err(invalid());
        }
        let bound = match possession {
            Some(p) => p,
            None => {
                tx.assertion_replays = replays;
                return Err(Error::Refused("dpop".to_owned()));
            },
        };
        note_assertion(tx, claims, namespace.as_str());
        let mut grant = self.new_grant(tx, &client, None, scopes, None);
        grant.confirmation_jkt = copy_opt(&bound.confirmation_jkt);
        grant.id_token_jkt = copy_opt(&bound.id_token_jkt);
        grant.resource = copy_opt(&request.resource);
        grant.machine_trust_hash = Some(proofs[found].hash.clone());
        grant.expires_at = expires_at;
        Ok(grant)
    }
}

pub open spec fn optional_member(
    m: Seq<(Seq<char>, JsonModel)>,
    key: Seq<char>,
    o: Option<Seq<char>>,
) -> Seq<(Seq<char>, JsonModel)> {
    match o {
        Some(t) => m.push((key, JsonModel::Text(t))),
        None => m,
    }
}

/// A public key as JSON: what it does not have is left out.
pub open spec fn jwk_json(k: PublicJwkModel) -> JsonModel {
    let a = seq![
        ("kty"@, JsonModel::Text(k.kty)),
        ("kid"@, JsonModel::Text(k.kid)),
        ("alg"@, JsonModel::Text(k.alg)),
    ];
    let b = optional_member(a, "use"@, k.usage);
    let c = if k.key_ops.len() == 0 {
        b
    } else {
        b.push(("key_ops"@, texts_array(k.key_ops)))
    };
    JsonModel::Object(
        optional_member(
            optional_member(
                optional_member(
                    optional_member(optional_member(c, "n"@, k.n), "e"@, k.e),
                    "crv"@,
                    k.crv,
                ),
                "x"@,
                k.x,
            ),
            "y"@,
            k.y,
        ),
    )
}

/// A workload trust as JSON.
pub open spec fn trust_json(t: MachineTrustModel) -> JsonModel {
    JsonModel::Object(
        seq![
            ("issuer"@, JsonModel::Text(t.issuer)),
            ("subject"@, JsonModel::Text(t.subject)),
            (
                "jwks"@,
                JsonModel::Object(
                    seq![
                        (
                            "keys"@,
                            JsonModel::Array(
                                t.jwks.keys.map_values(|k: PublicJwkModel| jwk_json(k)),
                            ),
                        ),
                    ],
                ),
            ),
            ("scopes"@, texts_array(in_order(t.scopes))),
        ],
    )
}

/// What a grant remembers of the trust that it was made under.
pub open spec fn trust_hash(t: MachineTrustModel) -> Seq<char> {
    digest_of(json_text(trust_json(t)))
}

fn push_optional(m: &mut Vec<Member>, key: &str, o: &Option<String>)
    ensures
        members_of(final(m)@) == optional_member(members_of(old(m)@), key@, opt_text(*o)),
{
    if let Some(t) = o {
        let ghost was = members_of(m@);
        m.push(member(key, text(t.as_str())));
        assert(members_of(m@) =~= was.push((key@, JsonModel::Text(t@))));
    }
}

fn write_jwk(k: &PublicJwk) -> (r: Json)
    ensures
        r@ == jwk_json(k@),
{
    let mut m: Vec<Member> = Vec::new();
    m.push(member("kty", text(k.kty.as_str())));
    m.push(member("kid", text(k.kid.as_str())));
    m.push(member("alg", text(k.alg.as_str())));
    assert(members_of(m@) =~= seq![
        ("kty"@, JsonModel::Text(k@.kty)),
        ("kid"@, JsonModel::Text(k@.kid)),
        ("alg"@, JsonModel::Text(k@.alg)),
    ]);
    push_optional(&mut m, "use", &k.usage);
    assert(k@.key_ops.len() == k.key_ops.len());
    if k.key_ops.len() > 0 {
        let ghost was = members_of(m@);
        m.push(member("key_ops", text_array(&k.key_ops)));
        assert(members_of(m@) =~= was.push(("key_ops"@, texts_array(k@.key_ops))));
    }
    push_optional(&mut m, "n", &k.n);
    push_optional(&mut m, "e", &k.e);
    push_optional(&mut m, "crv", &k.crv);
    push_optional(&mut m, "x", &k.x);
    push_optional(&mut m, "y", &k.y);
    proof {
        lemma_members_of(m);
    }
    Json::Object(m)
}

#[verifier::loop_isolation(false)]
fn write_jwks(keys: &Vec<PublicJwk>) -> (r: Json)
    ensures
        r@ == JsonModel::Array(views(keys@).map_values(|k: PublicJwkModel| jwk_json(k))),
{
    let ghost want = views(keys@).map_values(|k: PublicJwkModel| jwk_json(k));
    let mut out: Vec<Json> = Vec::new();
    let mut i: usize = 0;
    assert(items_of(out@) =~= want.take(0));
    while i < keys.len()
        invariant
            i <= keys.len(),
            items_of(out@) == want.take(i as int),
        decreases keys.len() - i,
    {
        assert(views(keys@)[i as int] == keys[i as int]@);
        let x = write_jwk(&keys[i]);
        let ghost was = items_of(out@);
        let ghost xm = x@;
        out.push(x);
        assert(items_of(out@) =~= was.push(xm));
        assert(want.take(i + 1) =~= want.take(i as int).push(xm));
        i = i + 1;
    }
    proof {
        assert(want.take(i as int) =~= want);
        lemma_items_of(out);
    }
    Json::Array(out)
}

/// What a grant remembers of the trust that it was made under.
pub fn hash_trust(t: &MachineTrust) -> (r: String)
    ensures
        r@ == trust_hash(t@),
{
    let keys = write_jwks(&t.jwks.keys);
    let set = crate::json::single("keys", keys);
    let scopes = t.scopes.to_list();
    let mut m: Vec<Member> = Vec::new();
    m.push(member("issuer", text(t.issuer.as_str())));
    m.push(member("subject", text(t.subject.as_str())));
    m.push(member("jwks", set));
    m.push(member("scopes", text_array(&scopes)));
    proof {
        lemma_members_of(m);
        assert(members_of(m@) =~= trust_json(t@)->Object_0);
    }
    let j = Json::Object(m);
    let s = to_text(&j);
    digest(s.as_str())
}

/// What an assertion gave under each of these trusts: no claims, or its own, verified under the
/// trust's keys, issuer and audience.
pub open spec fn proofs_offered(
    trusts: Seq<MachineTrustModel>,
    assertion: Seq<char>,
    audience: Seq<char>,
    proofs: Seq<TrustProofModel>,
) -> bool {
    proofs.len() == trusts.len() && forall|i: int|
        0 <= i < trusts.len() ==> (#[trigger] proofs[i]).hash == trust_hash(trusts[i]) && (
        proofs[i].claims matches Some(c) ==> token_stands(
            trusts[i].jwks,
            assertion,
            trusts[i].issuer,
            audience,
            c,
        ))
}

/// What an assertion gives under each of the trusts of a client, as `verify` finds it. It is asked
/// about this assertion under the keys and for the issuer of each trust, and whatever it answers
/// decides.
#[verifier::loop_isolation(false)]
pub fn read_proofs_by<F: Fn(&PublicJwks, &str, &str, &str) -> Result<AssertionClaims, Error>>(
    trusts: &Vec<MachineTrust>,
    assertion: &str,
    audience: &str,
    verify: F,
) -> (r: Vec<TrustProof>)
    requires
        forall|k: &PublicJwks, t: &str, i: &str, a: &str| #[trigger] verify.requires((k, t, i, a)),
    ensures
        r.len() == trusts.len(),
        forall|j: int|
            0 <= j < trusts.len() ==> (#[trigger] r[j])@.hash == trust_hash(trusts[j]@) && exists|
                k: &PublicJwks,
                t: &str,
                i: &str,
                a: &str,
                out: Result<AssertionClaims, Error>,
            |
                {
                    &&& #[trigger] verify.ensures((k, t, i, a), out)
                    &&& (k@, t@, i@, a@) == (
                        trusts[j]@.jwks,
                        assertion@,
                        trusts[j]@.issuer,
                        audience@,
                    )
                    &&& r[j]@.claims == claims_given(out)
                },
{
    let mut out: Vec<TrustProof> = Vec::new();
    let mut i: usize = 0;
    while i < trusts.len()
        invariant
            i <= trusts.len(),
            out.len() == i,
            forall|j: int|
                0 <= j < i ==> (#[trigger] out[j])@.hash == trust_hash(trusts[j]@) && exists|
                    k: &PublicJwks,
                    t: &str,
                    n: &str,
                    a: &str,
                    given: Result<AssertionClaims, Error>,
                |
                    {
                        &&& #[trigger] verify.ensures((k, t, n, a), given)
                        &&& (k@, t@, n@, a@) == (
                            trusts[j]@.jwks,
                            assertion@,
                            trusts[j]@.issuer,
                            audience@,
                        )
                        &&& out[j]@.claims == claims_given(given)
                    },
        decreases trusts.len() - i,
    {
        let keys = &trusts[i].jwks;
        let issuer = trusts[i].issuer.as_str();
        let given = verify(keys, assertion, issuer, audience);
        let ghost found = claims_given(given);
        assert(verify.ensures((keys, assertion, issuer, audience), given));
        let ghost gave = given;
        let claims = match given {
            Ok(c) => Some(c),
            Err(_) => None,
        };
        let hash = hash_trust(&trusts[i]);
        let ghost was = out@;
        let x = TrustProof { claims, hash };
        assert(x@.claims == found);
        out.push(x);
        assert(verify.ensures((keys, assertion, issuer, audience), gave) && (
            keys@,
            assertion@,
            issuer@,
            audience@,
        ) == (trusts[i as int]@.jwks, assertion@, trusts[i as int]@.issuer, audience@)
            && out[i as int]@.claims == claims_given(gave));
        assert forall|j: int| 0 <= j < i implies out[j] == was[j] by {}
        i = i + 1;
    }
    out
}

/// Verifies an assertion under each of the trusts of a client.
pub fn read_proofs(trusts: &Vec<MachineTrust>, assertion: &str, audience: &str) -> (r: Vec<TrustProof>)
    ensures
        proofs_offered(views(trusts@), assertion@, audience@, views(r@)),
{
    let r = read_proofs_by(trusts, assertion, audience, verify_now);
    proof {
        assert(views(r@).len() == r.len());
        assert(views(trusts@).len() == trusts.len());
        assert forall|j: int| 0 <= j < trusts.len() implies (#[trigger] views(r@)[j]).hash == trust_hash(
            views(trusts@)[j],
        ) && (views(r@)[j].claims matches Some(c) ==> token_stands(
            views(trusts@)[j].jwks,
            assertion@,
            views(trusts@)[j].issuer,
            audience@,
            c,
        )) by {
            assert(views(r@)[j] == r[j]@);
            assert(views(trusts@)[j] == trusts[j]@);
        }
    }
    r
}

/// The claims and the proofs of a machine request are its own: there are none only where the request
/// names no client that is known, or brings no assertion.
pub open spec fn workload_offered(
    t: TxModel,
    cfg: ConfigModel,
    q: TokenRequestModel,
    v: Option<AssertionClaimsModel>,
    proofs: Seq<TrustProofModel>,
) -> bool {
    claims_offered(t, q, v) && if q.client_id is Some && t.clients.dom().contains(q.client_id->0)
        && q.assertion is Some {
        proofs_offered(
            t.clients[q.client_id->0].settings.machine_trust,
            q.assertion->0,
            token_endpoint(cfg.issuer),
            proofs,
        )
    } else {
        proofs.len() == 0
    }
}

impl Core {
    /// Exchanges a workload's assertion for a grant, once it verified under one of the client's
    /// trusts.
    pub fn machine_token(&self, tx: &mut Tx, request: &TokenRequest, possession: Option<&Proof>) -> (r:
        Result<Grant, Error>)
        ensures
            exists|v: Option<AssertionClaimsModel>, proofs: Seq<TrustProofModel>| #[trigger]
                workload_offered(old(tx)@, self@.config, request@, v, proofs) && ({
                    let out = machine_exchange(
                        old(tx)@,
                        self@.config,
                        request@,
                        v,
                        proofs,
                        opt_proof(possession),
                    );
                    final(tx)@ == out.0 && agrees_with(r, out.1)
                }),
    {
        let verified = read_assertion(tx, request);
        let mut proofs: Vec<TrustProof> = Vec::new();
        if let Some(cid) = &request.client_id {
            if let Some(assertion) = &request.assertion {
                if let Some(client) = tx.clients.get(cid.as_str()) {
                    let audience = token_audience(self.config.issuer.as_str());
                    proofs = read_proofs(
                        &client.settings.machine_trust,
                        assertion.as_str(),
                        audience.as_str(),
                    );
                }
            }
        }
        proof {
            assert(views(proofs@).len() == proofs.len());
            assert(workload_offered(
                tx@,
                self@.config,
                request@,
                opt_view(verified),
                views(proofs@),
            ));
        }
        self.machine_token_with(tx, request, &verified, &proofs, possession)
    }
}

impl Core {
    /// Exchanges an access token for one at another client. The answer is the grant that the caller
    /// issues an access token for in the same transaction. `possession` is what the proof of
    /// possession binds it to, checked against the requester, the target and the parents' key.
    pub fn exchange_token(
        &self,
        tx: &mut Tx,
        request: &TokenRequest,
        possession: Option<&Proof>,
        standing: &Standing,
    ) -> (r: Result<Grant, Error>)
        ensures
            exists|v: Option<AssertionClaimsModel>| #[trigger] claims_offered(old(tx)@, request@, v) && (({
                let out = token_exchange(
                    old(tx)@,
                    self@.config,
                    request@,
                    v,
                    opt_proof(possession),
                    standing@,
                );
                final(tx)@ == out.0 && agrees_with(r, out.1)
            })),
    {
        let verified = read_assertion(tx, request);
        assert(claims_offered(tx@, request@, opt_view(verified)));
        self.exchange_token_with(tx, request, &verified, possession, standing)
    }
}

/// What an exchange gives. The grant is for the client that was asked for as the audience, for the
/// scopes that were asked for, and it is the subject's; it ends after the target's lifetime for access
/// tokens, with the subject's token, or with the actor's, whichever is soonest.
pub proof fn exchanged_grants_last_as_long_as_they_can(
    t: TxModel,
    cfg: ConfigModel,
    r: TokenRequestModel,
    verified: Option<AssertionClaimsModel>,
    possession: Option<ProofModel>,
    s: StandingModel,
)
    requires
        token_exchange(t, cfg, r, verified, possession, s).1 is Ok,
        r.audience is Some,
    ensures
        ({
            let g = token_exchange(t, cfg, r, verified, possession, s).1->Ok_0;
            let subject = t.access[digest_of(r.subject_token->0)];
            let target = t.clients[r.audience->0];
            let ttl = if target.settings.access_token_ttl is Some {
                target.settings.access_token_ttl->0
            } else {
                cfg.access_token_ttl
            };
            &&& g.client_id == target.id
            &&& g.scopes == scope_words(r.scope->0)
            &&& g.identity == subject.identity
            &&& g.resource == r.resource
            &&& g.issued_at == t.now
            &&& !g.used
            &&& g.confirmation_jkt == (possession->0).confirmation_jkt
            &&& g.expires_at <= subject.expires_at
            &&& g.expires_at as int <= t.now + ttl
            &&& r.actor_token matches Some(a) ==> g.expires_at <= t.access[digest_of(a)].expires_at
            &&& t.now + ttl <= u64::MAX ==> g.expires_at as int == t.now + ttl || g.expires_at
                == subject.expires_at || (r.actor_token is Some && g.expires_at == t.access[digest_of(
                r.actor_token->0,
            )].expires_at)
            &&& t.now + ttl <= u64::MAX && ttl > 0 ==> g.expires_at > t.now
        }),
{
    let subject = t.access[digest_of(r.subject_token->0)];
    assert(local_check(t, digest_of(r.subject_token->0), subject, s) is Ok);
    if r.actor_token is Some {
        let hash = digest_of(r.actor_token->0);
        assert(local_check(t, hash, t.access[hash], s) is Ok);
    }
}

/// An exchanged grant remembers where it comes from: the client that asked, the token it was
/// exchanged for and, in a delegation, the actor's token; and it says who acts. An impersonation adds
/// nobody to the actors, a delegation the client that asked.
pub proof fn exchanged_grants_say_who_acts(
    t: TxModel,
    cfg: ConfigModel,
    r: TokenRequestModel,
    verified: Option<AssertionClaimsModel>,
    possession: Option<ProofModel>,
    s: StandingModel,
)
    requires
        token_exchange(t, cfg, r, verified, possession, s).1 is Ok,
    ensures
        ({
            let g = token_exchange(t, cfg, r, verified, possession, s).1->Ok_0;
            let requester = t.clients[r.client_id->0];
            let subject = t.access[digest_of(r.subject_token->0)];
            let x = g.exchange->0;
            let before = if subject.exchange is Some {
                (subject.exchange->0).act
            } else {
                None
            };
            &&& g.exchange is Some
            &&& x.requester_id == requester.id
            &&& x.subject_hash == digest_of(r.subject_token->0)
            &&& x.actor_hash == match r.actor_token {
                Some(a) => Some(digest_of(a)),
                None => None,
            }
            &&& r.actor_token is None ==> x.act == before
            &&& r.actor_token is Some ==> {
                let m = x.act->0->Object_0;
                &&& x.act is Some && x.act->0 is Object
                &&& m.len() == if before is Some {
                    3int
                } else {
                    2int
                }
                &&& m[0] == ("sub"@, JsonModel::Text("service:"@ + requester.id))
                &&& m[1] == (
                    "iss"@,
                    JsonModel::Text(
                        if requester.settings.issuer is Some {
                            requester.settings.issuer->0
                        } else {
                            cfg.issuer
                        },
                    ),
                )
                &&& before is Some ==> m[2] == ("act"@, before->0)
            }
            &&& subject.identity is Some ==> x.service_subject is None
            &&& subject.identity is None && subject.exchange is None ==> x.service_subject == Some(
                "service:"@ + t.clients[subject.client_id].id,
            )
            &&& subject.identity is None && subject.exchange is Some && (
            subject.exchange->0).service_subject is Some ==> x.service_subject == (
            subject.exchange->0).service_subject
        }),
{
}

/// An exchange that both sides allow succeeds: the client presents its secret and may exchange
/// tokens, the subject's token stands, both policies name each other and the scopes were held before.
pub proof fn allowed_exchanges_succeed(
    t: TxModel,
    cfg: ConfigModel,
    r: TokenRequestModel,
    possession: ProofModel,
    s: StandingModel,
)
    requires
        authenticates(t, r, true, None),
        r.client_assertion is None,
        r.subject_token is Some,
        r.subject_token_type == Some("urn:ietf:params:oauth:token-type:access_token"@),
        r.requested_token_type is None,
        r.actor_token is None,
        r.actor_token_type is None,
        r.audience is Some,
        r.resource is None,
        r.scope is Some,
        byte_count(r.scope->0) <= 2048,
        t.access.dom().contains(digest_of(r.subject_token->0)),
        t.clients.dom().contains(r.audience->0),
        ({
            let requester = t.clients[r.client_id->0];
            let target = t.clients[r.audience->0];
            let key = digest_of(r.subject_token->0);
            let subject = t.access[key];
            let words = scope_words(r.scope->0);
            let policy = requester.settings.exchange->0;
            &&& requester.settings.allowed_grants.contains(
                "urn:ietf:params:oauth:grant-type:token-exchange"@,
            )
            &&& !requester.settings.dpop_bound_access_tokens
            &&& !target.settings.dpop_bound_access_tokens
            &&& requester.settings.exchange is Some
            &&& target.enabled
            &&& target.settings.exchange_from.contains(requester.id)
            &&& policy.subject_clients.contains(subject.client_id)
            &&& policy.target_clients.contains(target.id)
            &&& policy.allow_impersonation
            &&& words != Set::<Seq<char>>::empty()
            &&& words.subset_of(target.scopes)
            &&& words.subset_of(policy.scopes)
            &&& words.subset_of(subject.scopes)
            &&& words.subset_of(requester.scopes)
            &&& !words.contains("openid"@) && !words.contains("bound_key"@) && !words.contains(
                "offline_access"@,
            )
            &&& subject.identity is Some
            &&& subject.exchange is None
            &&& subject.confirmation_jkt is None
            &&& subject.resource is None
            &&& subject.machine_trust_hash is None
            &&& subject.expires_at > t.now && !subject.used
            &&& subject.scopes.subset_of(t.clients[subject.client_id].scopes)
            &&& t.clients.dom().contains(subject.client_id) && t.clients[subject.client_id].enabled
            &&& t.families.dom().contains(subject.family_id)
            &&& !t.families[subject.family_id].revoked
            &&& t.families[subject.family_id].expires_at > t.now
            &&& !s.unauthorized.contains(key) && !s.refused.contains(key)
        }),
    ensures
        token_exchange(t, cfg, r, None, Some(possession), s).1 is Ok,
{
    let subject = t.access[digest_of(r.subject_token->0)];
    let key = digest_of(r.subject_token->0);
    assert(local_check(t, key, subject, s) is Ok);
    assert(chain_check(t, key, subject, 0, s) is Ok);
    assert(chain_check(t, key, subject, 1, s) is Ok);
}

/// A machine's assertion is exchanged by an enabled service that may use it, under a trust whose
/// subject it names, for scopes that were asked for and lie within that trust. The grant is nobody's
/// but the machine's, and ends no later than the assertion.
pub proof fn machines_get_what_their_trust_allows(
    t: TxModel,
    cfg: ConfigModel,
    r: TokenRequestModel,
    verified: Option<AssertionClaimsModel>,
    proofs: Seq<TrustProofModel>,
    possession: Option<ProofModel>,
)
    requires
        machine_exchange(t, cfg, r, verified, proofs, possession).1 is Ok,
    ensures
        ({
            let c = t.clients[r.client_id->0];
            let u = machine_exchange(t, cfg, r, verified, proofs, possession).0;
            let g = machine_exchange(t, cfg, r, verified, proofs, possession).1->Ok_0;
            let ttl = if c.settings.access_token_ttl is Some {
                c.settings.access_token_ttl->0
            } else {
                cfg.access_token_ttl
            };
            &&& t.clients.dom().contains(r.client_id->0) && c.enabled && c.service
            &&& c.settings.allowed_grants.len() > 0 ==> c.settings.allowed_grants.contains(
                "urn:ietf:params:oauth:grant-type:jwt-bearer"@,
            )
            &&& r.client_secret is Some || r.client_assertion is Some ==> authenticates(t, r, true, verified)
            &&& exists|i: int|
                0 <= i < c.settings.machine_trust.len() && i < proofs.len() && (
                #[trigger] proofs[i]).claims is Some && (proofs[i].claims->0).sub == Some(
                    c.settings.machine_trust[i].subject,
                ) && g.scopes.subset_of(c.settings.machine_trust[i].scopes) && g.machine_trust_hash == Some(
                    proofs[i].hash,
                ) && g.expires_at <= (proofs[i].claims->0).exp->0 && (t.now + ttl <= u64::MAX
                    && g.expires_at < (proofs[i].claims->0).exp->0 ==> g.expires_at as int == t.now + ttl)
            &&& g.client_id == c.id
            &&& g.identity is None
            &&& g.nonce is None
            &&& g.exchange is None
            &&& g.scopes == scope_words(r.scope->0)
            &&& g.scopes.subset_of(c.scopes)
            &&& g.resource == r.resource
            &&& g.confirmation_jkt == (possession->0).confirmation_jkt
            &&& g.issued_at == t.now
            &&& t.now < g.expires_at
            &&& g.expires_at as int <= t.now + ttl
            &&& !g.used
            &&& u.families.dom().contains(g.family_id) && !u.families[g.family_id].revoked
        }),
{
    let c = t.clients[r.client_id->0];
    lemma_first_trust(c, proofs, 0);
    let i = first_trust(c, proofs, 0)->0;
    assert(proofs[i].claims is Some);
}

proof fn lemma_first_trust(c: ClientModel, proofs: Seq<TrustProofModel>, from: int)
    requires
        from >= 0,
    ensures
        match first_trust(c, proofs, from) {
            Some(i) => from <= i && trust_holds(c, proofs, i) && forall|j: int|
                from <= j < i ==> !#[trigger] trust_holds(c, proofs, j),
            None => forall|j: int| from <= j ==> !#[trigger] trust_holds(c, proofs, j),
        },
    decreases c.settings.machine_trust.len() - from,
{
    if from < c.settings.machine_trust.len() && !trust_holds(c, proofs, from) {
        lemma_first_trust(c, proofs, from + 1);
    }
}

/// An assertion that one of a service's trusts bears out is exchanged: it was not used before, lasts
/// at most five minutes, and names a subject that is trusted with the scopes.
pub proof fn trusted_machines_are_served(
    t: TxModel,
    cfg: ConfigModel,
    r: TokenRequestModel,
    proofs: Seq<TrustProofModel>,
    possession: ProofModel,
)
    requires
        r.client_id is Some,
        t.clients.dom().contains(r.client_id->0),
        r.client_secret is None,
        r.client_assertion is None,
        r.client_assertion_type is None,
        r.assertion is Some,
        r.scope is Some,
        byte_count(r.scope->0) <= 2048,
        r.resource is None,
        proofs.len() > 0,
        cfg.access_token_ttl > 0,
        t.now < u64::MAX,
        ({
            let c = t.clients[r.client_id->0];
            let claims = proofs[0].claims->0;
            let words = scope_words(r.scope->0);
            &&& c.enabled && c.service
            &&& c.settings.allowed_grants.contains("urn:ietf:params:oauth:grant-type:jwt-bearer"@)
            &&& c.settings.access_token_ttl is None
            &&& c.settings.machine_trust.len() > 0
            &&& proofs[0].claims is Some
            &&& claims.sub == Some(c.settings.machine_trust[0].subject)
            &&& claims.iat is Some && claims.exp is Some && claims.jti is Some
            &&& 0 < (claims.jti->0).len() && byte_count(claims.jti->0) <= 256
            &&& claims.iat->0 <= t.now < claims.exp->0
            &&& claims.exp->0 - claims.iat->0 <= 300
            &&& t.assertion_replays == Map::<Seq<char>, u64>::empty()
            &&& words != Set::<Seq<char>>::empty()
            &&& words.subset_of(c.scopes)
            &&& words.subset_of(c.settings.machine_trust[0].scopes)
        }),
    ensures
        machine_exchange(t, cfg, r, None, proofs, Some(possession)).1 is Ok,
{
    let c = t.clients[r.client_id->0];
    assert(trust_holds(c, proofs, 0));
    assert(first_trust(c, proofs, 0) == Some(0int));
}

/// A token is exchanged only where both sides agree: the requester may act on tokens of that client
/// and for that target, in that way, and the target takes the requester's. What comes of it never
/// reaches further than the token, the requester or their agreement, and never is a login.
pub proof fn exchanges_stay_within_the_agreement(
    requester: ClientModel,
    target: ClientModel,
    policy: ExchangePolicyModel,
    subject: GrantModel,
    scopes: Set<Seq<char>>,
    delegation: bool,
)
    ensures
        policy_check(requester, target, policy, subject, scopes, delegation) is Ok <==> {
            &&& subject.identity is None ==> target.service
            &&& target.settings.exchange_from.contains(requester.id)
            &&& policy.subject_clients.contains(subject.client_id)
            &&& policy.target_clients.contains(target.id)
            &&& delegation ==> policy.allow_delegation
            &&& !delegation ==> policy.allow_impersonation
            &&& !scopes.contains("openid"@)
            &&& !scopes.contains("bound_key"@)
            &&& !scopes.contains("offline_access"@)
            &&& forall|w: Seq<char>| #[trigger]
                scopes.contains(w) ==> policy.scopes.contains(w) && subject.scopes.contains(w)
                    && requester.scopes.contains(w)
        },
{
    if policy_check(requester, target, policy, subject, scopes, delegation) is Ok {
        assert forall|w: Seq<char>| #[trigger] scopes.contains(w) implies policy.scopes.contains(w)
            && subject.scopes.contains(w) && requester.scopes.contains(w) by {}
    }
}

/// A key that a token or its actor is bound to binds what comes of them; two different ones exclude
/// each other.
pub proof fn exchanged_tokens_stay_bound(
    requester: ClientModel,
    target: ClientModel,
    subject: Option<Seq<char>>,
    actor: Option<Seq<char>>,
    p: ProofModel,
)
    ensures
        possession_check(requester, target, subject, actor, Some(p)) is Ok <==> {
            &&& subject is Some ==> p.confirmation_jkt == subject
            &&& actor is Some ==> p.confirmation_jkt == actor
            &&& requester.settings.dpop_bound_access_tokens || target.settings.dpop_bound_access_tokens
                ==> p.confirmation_jkt is Some
        },
        possession_check(requester, target, subject, actor, None) is Err,
        parent_key(subject, actor) matches Ok(k) ==> (subject is Some ==> k == subject) && (actor is Some
            ==> k == actor) && (subject is None && actor is None ==> k is None),
{
}

/// An actor's own token is that of the requester itself, not of a user and not exchanged before.
pub proof fn actors_act_for_themselves(
    t: TxModel,
    cfg: ConfigModel,
    requester: ClientModel,
    subject: GrantModel,
    r: TokenRequestModel,
    s: StandingModel,
)
    ensures
        r.actor_token is Some && acting_check(t, cfg, requester, subject, r, s) is Ok ==> {
            let hash = digest_of(r.actor_token->0);
            let a = t.access[hash];
            let out = acting_check(t, cfg, requester, subject, r, s)->Ok_0;
            &&& r.actor_token_type == Some("urn:ietf:params:oauth:token-type:access_token"@)
            &&& t.access.dom().contains(hash)
            &&& a.client_id == requester.id
            &&& a.identity is None
            &&& a.exchange is None
            &&& out.hash == Some(hash)
            &&& out.expires_at == a.expires_at
            &&& out.jkt == a.confirmation_jkt
            &&& out.act is Some
        },
        r.actor_token is None ==> (acting_check(t, cfg, requester, subject, r, s) is Ok
            <==> r.actor_token_type is None),
        r.actor_token is None && r.actor_token_type is None ==> {
            let out = acting_check(t, cfg, requester, subject, r, s)->Ok_0;
            out.hash is None && out.expires_at == subject.expires_at && out.jkt is None
        },
{
}

/// A resource names its target where exactly one enabled client serves it among those that the
/// requester may reach; an audience names it directly.
pub proof fn targets_are_named_or_found(t: TxModel, requester: ClientModel, r: TokenRequestModel)
    ensures
        r.audience is Some ==> exchange_target(t, requester, r) == Ok::<Seq<char>, Failure>(r.audience->0),
        r.audience is None && r.resource is None ==> exchange_target(t, requester, r) is Err,
        r.audience is None && exchange_target(t, requester, r) is Ok ==> exists|k: Seq<char>| #[trigger]
            in_order(t.clients.dom()).contains(k) && t.clients[k].id == exchange_target(
                t,
                requester,
                r,
            )->Ok_0 && t.clients[k].enabled && t.clients[k].settings.resources.dom().contains(r.resource->0)
                && (requester.settings.exchange->0).target_clients.contains(t.clients[k].id),
{
    if r.audience is None && exchange_target(t, requester, r) is Ok {
        let all = in_order(t.clients.dom());
        let p = serves_resource(t, requester, r.resource->0);
        let serving = all.filter(p);
        all.lemma_filter_pred(p, 0);
        assert(serving.contains(serving[0]));
        all.lemma_filter_contains_rev(p, serving[0]);
    }
}

/// A trust is told apart by its issuer, subject, keys and scopes: proofs are offered for each trust in
/// its place, and what they claim stands under that trust's own keys and issuer.
pub proof fn trusts_are_proved_in_their_place(
    trusts: Seq<MachineTrustModel>,
    assertion: Seq<char>,
    audience: Seq<char>,
    proofs: Seq<TrustProofModel>,
    i: int,
)
    requires
        proofs_offered(trusts, assertion, audience, proofs),
        0 <= i < trusts.len(),
    ensures
        proofs.len() == trusts.len(),
        proofs[i].claims matches Some(c) ==> addressed(assertion, trusts[i].issuer, Some(audience))
            && token_claims(assertion) == Some(c) && pinned_key(
            trusts[i].jwks,
            assertion,
            header_of(assertion),
        ) is Ok,
        trust_json(trusts[i]).member("issuer"@) == Some(JsonModel::Text(trusts[i].issuer)),
        trust_json(trusts[i]).member("subject"@) == Some(JsonModel::Text(trusts[i].subject)),
        trust_json(trusts[i]).member("scopes"@) == Some(texts_array(in_order(trusts[i].scopes))),
        proofs[i].hash == digest_of(json_text(trust_json(trusts[i]))),
{
    assert(proofs[i].hash == trust_hash(trusts[i]));
    reveal_with_fuel(crate::json::lookup, 5);
    reveal_strlit("issuer");
    reveal_strlit("subject");
    reveal_strlit("jwks");
    reveal_strlit("scopes");
    assert("issuer"@.len() == 6 && "issuer"@[0] == 'i');
    assert("subject"@.len() == 7);
    assert("jwks"@.len() == 4);
    assert("scopes"@.len() == 6 && "scopes"@[0] == 's');
    let m = trust_json(trusts[i])->Object_0;
    assert(m.drop_first()[0] == m[1]);
    assert(m.drop_first().drop_first()[0] == m[2]);
    assert(m.drop_first().drop_first().drop_first()[0] == m[3]);
}

/// An exchange is written down under its requester and target; other grants are not.
pub proof fn exchanges_are_written_down(t: TxModel, g: GrantModel)
    ensures
        g.exchange is None ==> exchange_noted(t, g) == t,
        g.exchange matches Some(x) ==> exchange_noted(t, g).audit.last() == (AuditModel {
            actor: x.requester_id,
            action: "token.exchanged"@,
            target: g.client_id,
        }) && exchange_noted(t, g).audit.len() == t.audit.len() + 1,
{
}

/// What is offered for a workload stands: the client's own assertion, and a proof for each trust in its
/// place; without an assertion there are no proofs.
pub proof fn offered_workloads_stand(
    t: TxModel,
    cfg: ConfigModel,
    q: TokenRequestModel,
    v: Option<AssertionClaimsModel>,
    proofs: Seq<TrustProofModel>,
)
    requires
        workload_offered(t, cfg, q, v, proofs),
    ensures
        v matches Some(c) ==> q.client_id is Some && t.clients.dom().contains(q.client_id->0)
            && q.client_assertion is Some && token_claims(q.client_assertion->0) == Some(c),
        q.assertion is None ==> proofs.len() == 0,
        q.client_id is Some && t.clients.dom().contains(q.client_id->0) && q.assertion is Some ==> proofs.len()
            == t.clients[q.client_id->0].settings.machine_trust.len(),
{
}

} // verus!
