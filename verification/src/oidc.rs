//! Authorization, codes, tokens and device grants.
pub mod authorize;
pub mod device;
pub mod endpoints;
pub mod issue;

use crate::engine::{ConfigModel, Core, audit, audited, drawn, extended, next_id};
use crate::error::{Error, Failure, agrees_with};
use crate::exchange::chain_check;
use crate::jose::{ASSERTION_TYPE, AssertionClaims, AssertionClaimsModel, ClientAuthMethod, PublicJwks, PublicJwksModel, addressed, assertion_check, assertion_used, check_assertion, note_assertion, replay_key, token_claims, token_stands, verified_claims};
use crate::json::{Json, JsonModel, Member, json_text, lemma_members_of, member, members_of, text, to_text};
use crate::model::{Client, ClientModel, CodeModel, Family, FamilyModel, Grant, GrantModel, Identity, IdentityModel};
use crate::names::Names;
use crate::outside::{digest, digest_of};
use crate::provider::{grant_allowed, grant_check, redirect_matches, redirect_registered};
use crate::resource::{bind_check, check_bind, resource_check};
use crate::store::{Tx, TxModel};
use crate::table::{Row, opt_view};
use crate::text::{among, ascii_alphanumeric, byte_count, byte_len, chars_of, concat, copy_opt, is_alphanumeric, opt_is, opt_text, parts, same, split, texts, trim_end_char, trim_end_of};
use vstd::prelude::*;
use vstd::string::*;

verus! {

pub const DEVICE_GRANT: &'static str = "urn:ietf:params:oauth:grant-type:device_code";

/// An authorization request.
pub struct Authorization {
    pub resource: Option<String>,
    pub dpop_jkt: Option<String>,
    pub claims: Option<String>,
    pub acr_values: Option<String>,
    pub request_uri: Option<String>,
    pub request_object_hash: Option<String>,
    pub response_type: String,
    pub client_id: String,
    pub redirect_uri: String,
    pub scope: String,
    pub state: Option<String>,
    pub nonce: Option<String>,
    pub code_challenge: String,
    pub code_challenge_method: String,
    pub prompt: Option<String>,
    pub max_age: Option<u64>,
    pub response_mode: Option<String>,
    pub decision: Option<String>,
    pub transaction_id: Option<String>,
    pub request_binding: Option<String>,
}

/// What a [`Authorization`] holds.
pub struct AuthorizationModel {
    pub resource: Option<Seq<char>>,
    pub dpop_jkt: Option<Seq<char>>,
    pub claims: Option<Seq<char>>,
    pub acr_values: Option<Seq<char>>,
    pub request_uri: Option<Seq<char>>,
    pub request_object_hash: Option<Seq<char>>,
    pub response_type: Seq<char>,
    pub client_id: Seq<char>,
    pub redirect_uri: Seq<char>,
    pub scope: Seq<char>,
    pub state: Option<Seq<char>>,
    pub nonce: Option<Seq<char>>,
    pub code_challenge: Seq<char>,
    pub code_challenge_method: Seq<char>,
    pub prompt: Option<Seq<char>>,
    pub max_age: Option<u64>,
    pub response_mode: Option<Seq<char>>,
    pub decision: Option<Seq<char>>,
    pub transaction_id: Option<Seq<char>>,
    pub request_binding: Option<Seq<char>>,
}

impl View for Authorization {
    type V = AuthorizationModel;

    open spec fn view(&self) -> AuthorizationModel {
        AuthorizationModel {
            resource: crate::text::opt_text(self.resource),
            dpop_jkt: crate::text::opt_text(self.dpop_jkt),
            claims: crate::text::opt_text(self.claims),
            acr_values: crate::text::opt_text(self.acr_values),
            request_uri: crate::text::opt_text(self.request_uri),
            request_object_hash: crate::text::opt_text(self.request_object_hash),
            response_type: self.response_type@,
            client_id: self.client_id@,
            redirect_uri: self.redirect_uri@,
            scope: self.scope@,
            state: crate::text::opt_text(self.state),
            nonce: crate::text::opt_text(self.nonce),
            code_challenge: self.code_challenge@,
            code_challenge_method: self.code_challenge_method@,
            prompt: crate::text::opt_text(self.prompt),
            max_age: self.max_age,
            response_mode: crate::text::opt_text(self.response_mode),
            decision: crate::text::opt_text(self.decision),
            transaction_id: crate::text::opt_text(self.transaction_id),
            request_binding: crate::text::opt_text(self.request_binding),
        }
    }
}

impl Row for Authorization {
    fn dup(&self) -> (r: Self) {
        Authorization {
            resource: crate::text::copy_opt(&self.resource),
            dpop_jkt: crate::text::copy_opt(&self.dpop_jkt),
            claims: crate::text::copy_opt(&self.claims),
            acr_values: crate::text::copy_opt(&self.acr_values),
            request_uri: crate::text::copy_opt(&self.request_uri),
            request_object_hash: crate::text::copy_opt(&self.request_object_hash),
            response_type: self.response_type.clone(),
            client_id: self.client_id.clone(),
            redirect_uri: self.redirect_uri.clone(),
            scope: self.scope.clone(),
            state: crate::text::copy_opt(&self.state),
            nonce: crate::text::copy_opt(&self.nonce),
            code_challenge: self.code_challenge.clone(),
            code_challenge_method: self.code_challenge_method.clone(),
            prompt: crate::text::copy_opt(&self.prompt),
            max_age: self.max_age,
            response_mode: crate::text::copy_opt(&self.response_mode),
            decision: crate::text::copy_opt(&self.decision),
            transaction_id: crate::text::copy_opt(&self.transaction_id),
            request_binding: crate::text::copy_opt(&self.request_binding),
        }
    }
}

/// A request at the token endpoint.
pub struct TokenRequest {
    pub grant_type: String,
    pub client_id: Option<String>,
    pub client_secret: Option<String>,
    pub code: Option<String>,
    pub redirect_uri: Option<String>,
    pub code_verifier: Option<String>,
    pub refresh_token: Option<String>,
    pub device_code: Option<String>,
    pub scope: Option<String>,
    pub token: Option<String>,
    pub token_type_hint: Option<String>,
    pub client_assertion: Option<String>,
    pub client_assertion_type: Option<String>,
    pub assertion: Option<String>,
    pub subject_token: Option<String>,
    pub subject_token_type: Option<String>,
    pub actor_token: Option<String>,
    pub actor_token_type: Option<String>,
    pub requested_token_type: Option<String>,
    pub audience: Option<String>,
    pub resource: Option<String>,
    pub client_auth_method: Option<ClientAuthMethod>,
    pub dpop_proof: Option<String>,
    /// Set only by the outpost, which redeems proxy-client codes in process.
    pub outpost_internal: bool,
}

/// What a [`TokenRequest`] holds.
pub struct TokenRequestModel {
    pub grant_type: Seq<char>,
    pub client_id: Option<Seq<char>>,
    pub client_secret: Option<Seq<char>>,
    pub code: Option<Seq<char>>,
    pub redirect_uri: Option<Seq<char>>,
    pub code_verifier: Option<Seq<char>>,
    pub refresh_token: Option<Seq<char>>,
    pub device_code: Option<Seq<char>>,
    pub scope: Option<Seq<char>>,
    pub token: Option<Seq<char>>,
    pub token_type_hint: Option<Seq<char>>,
    pub client_assertion: Option<Seq<char>>,
    pub client_assertion_type: Option<Seq<char>>,
    pub assertion: Option<Seq<char>>,
    pub subject_token: Option<Seq<char>>,
    pub subject_token_type: Option<Seq<char>>,
    pub actor_token: Option<Seq<char>>,
    pub actor_token_type: Option<Seq<char>>,
    pub requested_token_type: Option<Seq<char>>,
    pub audience: Option<Seq<char>>,
    pub resource: Option<Seq<char>>,
    pub client_auth_method: Option<ClientAuthMethod>,
    pub dpop_proof: Option<Seq<char>>,
    pub outpost_internal: bool,
}

impl View for TokenRequest {
    type V = TokenRequestModel;

    open spec fn view(&self) -> TokenRequestModel {
        TokenRequestModel {
            grant_type: self.grant_type@,
            client_id: crate::text::opt_text(self.client_id),
            client_secret: crate::text::opt_text(self.client_secret),
            code: crate::text::opt_text(self.code),
            redirect_uri: crate::text::opt_text(self.redirect_uri),
            code_verifier: crate::text::opt_text(self.code_verifier),
            refresh_token: crate::text::opt_text(self.refresh_token),
            device_code: crate::text::opt_text(self.device_code),
            scope: crate::text::opt_text(self.scope),
            token: crate::text::opt_text(self.token),
            token_type_hint: crate::text::opt_text(self.token_type_hint),
            client_assertion: crate::text::opt_text(self.client_assertion),
            client_assertion_type: crate::text::opt_text(self.client_assertion_type),
            assertion: crate::text::opt_text(self.assertion),
            subject_token: crate::text::opt_text(self.subject_token),
            subject_token_type: crate::text::opt_text(self.subject_token_type),
            actor_token: crate::text::opt_text(self.actor_token),
            actor_token_type: crate::text::opt_text(self.actor_token_type),
            requested_token_type: crate::text::opt_text(self.requested_token_type),
            audience: crate::text::opt_text(self.audience),
            resource: crate::text::opt_text(self.resource),
            client_auth_method: self.client_auth_method,
            dpop_proof: crate::text::opt_text(self.dpop_proof),
            outpost_internal: self.outpost_internal,
        }
    }
}

impl Row for TokenRequest {
    fn dup(&self) -> (r: Self) {
        TokenRequest {
            grant_type: self.grant_type.clone(),
            client_id: crate::text::copy_opt(&self.client_id),
            client_secret: crate::text::copy_opt(&self.client_secret),
            code: crate::text::copy_opt(&self.code),
            redirect_uri: crate::text::copy_opt(&self.redirect_uri),
            code_verifier: crate::text::copy_opt(&self.code_verifier),
            refresh_token: crate::text::copy_opt(&self.refresh_token),
            device_code: crate::text::copy_opt(&self.device_code),
            scope: crate::text::copy_opt(&self.scope),
            token: crate::text::copy_opt(&self.token),
            token_type_hint: crate::text::copy_opt(&self.token_type_hint),
            client_assertion: crate::text::copy_opt(&self.client_assertion),
            client_assertion_type: crate::text::copy_opt(&self.client_assertion_type),
            assertion: crate::text::copy_opt(&self.assertion),
            subject_token: crate::text::copy_opt(&self.subject_token),
            subject_token_type: crate::text::copy_opt(&self.subject_token_type),
            actor_token: crate::text::copy_opt(&self.actor_token),
            actor_token_type: crate::text::copy_opt(&self.actor_token_type),
            requested_token_type: crate::text::copy_opt(&self.requested_token_type),
            audience: crate::text::copy_opt(&self.audience),
            resource: crate::text::copy_opt(&self.resource),
            client_auth_method: self.client_auth_method,
            dpop_proof: crate::text::copy_opt(&self.dpop_proof),
            outpost_internal: self.outpost_internal,
        }
    }
}

/// The words of the prompt parameter, empty ones too.
pub open spec fn prompts(r: AuthorizationModel) -> Seq<Seq<char>> {
    parts(
        match r.prompt {
            Some(p) => p,
            None => ""@,
        },
        ' ',
    )
}

impl Authorization {
    pub fn has_prompt(&self, prompt: &str) -> (r: bool)
        ensures
            r == prompts(self@).contains(prompt@),
    {
        let list = self.prompt_list();
        among(prompt, &list)
    }

    pub fn prompt_list(&self) -> (r: Vec<String>)
        ensures
            texts(r@) == prompts(self@),
    {
        match &self.prompt {
            Some(p) => split(p.as_str(), ' '),
            None => split("", ' '),
        }
    }
}

/// The words of a scope parameter.
pub open spec fn scope_words(scope: Seq<char>) -> Set<Seq<char>> {
    parts(scope, ' ').to_set().remove(Seq::<char>::empty())
}

pub open spec fn scope_failure() -> Failure {
    Failure::Oauth("invalid_scope"@, "Requested scopes are not allowed for this client"@)
}

/// The scopes that a request asks for: some of the client's, and at least one.
pub open spec fn requested_scopes(scope: Seq<char>, c: ClientModel) -> Result<
    Set<Seq<char>>,
    Failure,
> {
    if byte_count(scope) > 2048 {
        Err(Failure::Oauth("invalid_scope"@, "Scope too long"@))
    } else if scope_words(scope) == Set::<Seq<char>>::empty() || !scope_words(scope).subset_of(
        c.scopes,
    ) {
        Err(scope_failure())
    } else {
        Ok(scope_words(scope))
    }
}

pub fn scope_request(scope: &str, client: &Client) -> (r: Result<Names, Error>)
    ensures
        agrees_with(r, requested_scopes(scope@, client@)),
{
    if byte_len(scope) > 2048 {
        return Err(Error::oauth("invalid_scope", "Scope too long"));
    }
    let list = split(scope, ' ');
    let mut scopes = Names::new();
    let ghost all = texts(list@);
    let mut i: usize = 0;
    assert(all.take(0).to_set().remove(Seq::<char>::empty()) =~= scopes@);
    while i < list.len()
        invariant
            i <= list.len(),
            all == texts(list@),
            scopes@ == all.take(i as int).to_set().remove(Seq::<char>::empty()),
        decreases list.len() - i,
    {
        let ghost word = list@[i as int]@;
        proof {
            let a = all.take(i as int);
            let b = all.take(i + 1);
            assert(b =~= a.push(word));
            assert forall|s: Seq<char>| #[trigger] b.to_set().contains(s) <==> a.to_set().contains(s) || s
                == word by {
                if a.contains(s) {
                    assert(b[a.index_of(s)] == s);
                }
                if s == word {
                    assert(b[i as int] == s);
                }
                if b.contains(s) && s != word {
                    assert(a[b.index_of(s)] == s);
                }
            }
        }
        if !list[i].as_str().is_empty() {
            let _ = scopes.insert(list[i].as_str());
        } else {
            assert(word =~= Seq::<char>::empty());
        }
        i = i + 1;
        assert(scopes@ =~= all.take(i as int).to_set().remove(Seq::<char>::empty()));
    }
    assert(all.take(i as int) =~= all);
    if scopes.is_empty() || !scopes.is_subset(&client.scopes) {
        return Err(
            Error::oauth("invalid_scope", "Requested scopes are not allowed for this client"),
        );
    }
    Ok(scopes)
}

/// Granted scopes are always among those that the client registered.
pub proof fn requests_stay_within_registration(scope: Seq<char>, c: ClientModel)
    requires
        requested_scopes(scope, c) is Ok,
    ensures
        (requested_scopes(scope, c)->Ok_0).subset_of(c.scopes),
        requested_scopes(scope, c)->Ok_0 != Set::<Seq<char>>::empty(),
        !(requested_scopes(scope, c)->Ok_0).contains(Seq::<char>::empty()),
{
}

pub open spec fn client_failure() -> Failure {
    Failure::Reply(401, "invalid_client"@, "Client authentication failed"@)
}

pub open spec fn grant_failure() -> Failure {
    Failure::Oauth("invalid_grant"@, "Grant invalid, expired, already used, or revoked"@)
}

pub fn invalid_client() -> (e: Error)
    ensures
        e@ == client_failure(),
{
    Error::reply(401, "invalid_client", "Client authentication failed")
}

pub fn invalid_grant() -> (e: Error)
    ensures
        e@ == grant_failure(),
{
    Error::oauth("invalid_grant", "Grant invalid, expired, already used, or revoked")
}

/// The client is registered and enabled.
pub open spec fn active_client(t: TxModel, cid: Seq<char>) -> bool {
    t.clients.dom().contains(cid) && t.clients[cid].enabled
}

pub fn get_client(tx: &Tx, cid: &str) -> (r: Result<Client, Error>)
    ensures
        r is Ok == active_client(tx@, cid@),
        r is Ok ==> r->Ok_0@ == tx@.clients[cid@],
        r is Err ==> r->Err_0@ == client_failure(),
{
    match tx.clients.get(cid) {
        Some(c) => {
            if c.enabled {
                Ok(c.dup())
            } else {
                Err(invalid_client())
            }
        },
        None => Err(invalid_client()),
    }
}

/// A field that a request must carry.
pub fn required<'a>(field: &'a Option<String>, name: &str) -> (r: Result<&'a str, Error>)
    ensures
        match *field {
            Some(s) => if s@.len() > 0 {
                r is Ok && r->Ok_0@ == s@
            } else {
                r is Err && r->Err_0@ == Failure::Bad("Missing "@ + name@)
            },
            None => r is Err && r->Err_0@ == Failure::Bad("Missing "@ + name@),
        },
{
    match field {
        Some(s) => {
            if s.as_str().is_empty() {
                let m = concat("Missing ", name);
                Err(Error::Bad(m))
            } else {
                Ok(s.as_str())
            }
        },
        None => {
            let m = concat("Missing ", name);
            Err(Error::Bad(m))
        },
    }
}

/// The field is there and not empty.
pub open spec fn given(field: Option<Seq<char>>) -> bool {
    field is Some && (field->0).len() > 0
}

/// How the client presented itself, where it used no assertion.
pub open spec fn method_used(r: TokenRequestModel) -> ClientAuthMethod {
    if r.client_secret is Some {
        match r.client_auth_method {
            Some(m) => m,
            None => ClientAuthMethod::ClientSecretPost,
        }
    } else {
        ClientAuthMethod::Public
    }
}

/// The client presents the secret that it registered; a client without a secret is accepted only
/// where no proof is asked for and none is offered.
pub open spec fn secret_accepted(c: ClientModel, r: TokenRequestModel, confidential: bool) -> bool {
    match c.secret_hash {
        Some(hash) => r.client_secret is Some && digest_of(r.client_secret->0) == hash,
        None => !confidential && r.client_secret is None,
    }
}

/// The namespace in which a client's assertions are remembered.
pub open spec fn client_namespace(cid: Seq<char>) -> Seq<char> {
    "client:"@ + cid
}

/// The client's assertion verified under its keys, names it as the subject, and was not used.
pub open spec fn assertion_accepted(
    t: TxModel,
    c: ClientModel,
    r: TokenRequestModel,
    verified: Option<AssertionClaimsModel>,
) -> bool {
    &&& c.settings.token_endpoint_auth_method == Some(ClientAuthMethod::PrivateKeyJwt)
    &&& r.client_secret is None
    &&& r.client_assertion_type == Some(ASSERTION_TYPE@)
    &&& r.client_assertion is Some
    &&& t.issuer is Some
    &&& c.settings.jwks is Some
    &&& verified is Some
    &&& (verified->0).sub == Some(r.client_id->0)
    &&& assertion_check(t, verified->0, client_namespace(r.client_id->0)) is Ok
}

/// Whether the request authenticates its client. `verified` holds the claims of the client's
/// assertion where its signature, issuer and audience were verified under the client's keys.
pub open spec fn authenticates(
    t: TxModel,
    r: TokenRequestModel,
    confidential: bool,
    verified: Option<AssertionClaimsModel>,
) -> bool {
    &&& given(r.client_id)
    &&& active_client(t, r.client_id->0)
    &&& {
        let c = t.clients[r.client_id->0];
        if r.client_assertion is Some || r.client_assertion_type is Some {
            assertion_accepted(t, c, r, verified)
        } else {
            &&& c.settings.token_endpoint_auth_method matches Some(m) ==> m == method_used(r)
            &&& secret_accepted(c, r, confidential)
        }
    }
}

/// The store after the request authenticated its client.
pub open spec fn authenticated(
    t: TxModel,
    r: TokenRequestModel,
    verified: Option<AssertionClaimsModel>,
) -> TxModel {
    if r.client_assertion is Some || r.client_assertion_type is Some {
        assertion_used(t, verified->0, client_namespace(r.client_id->0))
    } else {
        t
    }
}

/// The client of a request, where the request authenticates it. Nothing is noted yet.
pub fn check_client(
    tx: &Tx,
    request: &TokenRequest,
    confidential: bool,
    verified: &Option<AssertionClaims>,
) -> (r: Result<Client, Error>)
    ensures
        r is Ok == authenticates(tx@, request@, confidential, opt_view(*verified)),
        r is Ok ==> r->Ok_0@ == tx@.clients[request@.client_id->0],
        r is Err ==> r->Err_0@ == client_failure(),
{
    let cid = match &request.client_id {
        Some(c) => c.as_str(),
        None => return Err(invalid_client()),
    };
    if cid.is_empty() {
        return Err(invalid_client());
    }
    let client = match get_client(tx, cid) {
        Ok(c) => c,
        Err(e) => return Err(e),
    };
    if request.client_assertion.is_some() || request.client_assertion_type.is_some() {
        let by_key = match client.settings.token_endpoint_auth_method {
            Some(m) => m == ClientAuthMethod::PrivateKeyJwt,
            None => false,
        };
        if !by_key || request.client_secret.is_some() || !opt_is(
            &request.client_assertion_type,
            ASSERTION_TYPE,
        ) || request.client_assertion.is_none() || tx.issuer.is_none()
            || client.settings.jwks.is_none() {
            return Err(invalid_client());
        }
        let claims = match verified {
            Some(c) => c,
            None => return Err(invalid_client()),
        };
        if !opt_is(&claims.sub, cid) {
            return Err(invalid_client());
        }
        let namespace = concat("client:", cid);
        return match check_assertion(tx, claims, namespace.as_str()) {
            Ok(_) => Ok(client),
            Err(_) => Err(invalid_client()),
        };
    }
    let used = if request.client_secret.is_some() {
        match request.client_auth_method {
            Some(m) => m,
            None => ClientAuthMethod::ClientSecretPost,
        }
    } else {
        ClientAuthMethod::Public
    };
    if let Some(m) = client.settings.token_endpoint_auth_method {
        if m != used {
            return Err(invalid_client());
        }
    }
    let accepted = match &client.secret_hash {
        Some(hash) => match &request.client_secret {
            Some(secret) => {
                let presented = digest(secret.as_str());
                same(presented.as_str(), hash.as_str())
            },
            None => false,
        },
        None => !confidential && request.client_secret.is_none(),
    };
    if !accepted {
        return Err(invalid_client());
    }
    Ok(client)
}

/// Notes that the request's assertion was used, where it authenticated with one.
pub fn note_client(
    tx: &mut Tx,
    request: &TokenRequest,
    confidential: bool,
    verified: &Option<AssertionClaims>,
)
    requires
        authenticates(old(tx)@, request@, confidential, opt_view(*verified)),
    ensures
        final(tx)@ == authenticated(old(tx)@, request@, opt_view(*verified)),
{
    if request.client_assertion.is_some() || request.client_assertion_type.is_some() {
        if let (Some(cid), Some(claims)) = (&request.client_id, verified) {
            let namespace = concat("client:", cid.as_str());
            note_assertion(tx, claims, namespace.as_str());
        }
    }
}

/// Authenticates the client of a request: by assertion, by secret, or as a public client.
pub fn authenticate_client_with(
    tx: &mut Tx,
    request: &TokenRequest,
    confidential: bool,
    verified: &Option<AssertionClaims>,
) -> (r: Result<Client, Error>)
    ensures
        r is Ok == authenticates(old(tx)@, request@, confidential, opt_view(*verified)),
        r is Ok ==> r->Ok_0@ == old(tx)@.clients[request@.client_id->0],
        r is Err ==> r->Err_0@ == client_failure(),
        final(tx)@ == if r is Ok {
            authenticated(old(tx)@, request@, opt_view(*verified))
        } else {
            old(tx)@
        },
{
    match check_client(tx, request, confidential, verified) {
        Ok(c) => {
            note_client(tx, request, confidential, verified);
            Ok(c)
        },
        Err(e) => Err(e),
    }
}

/// What a policy check outside the library answered for stored grants, by the hash of their token.
pub struct Standing {
    /// The identity, device trust or claim policies refuse these grants.
    pub unauthorized: Names,
    /// The assurance policy, or the lookup of the identity, refuses these grants with its own reply.
    pub refused: Names,
    /// The workload trusts of the grant's client that the grant was made under, by hash.
    pub trusts: Names,
}

/// What a [`Standing`] holds.
pub struct StandingModel {
    pub unauthorized: Set<Seq<char>>,
    pub refused: Set<Seq<char>>,
    pub trusts: Set<Seq<char>>,
}

impl View for Standing {
    type V = StandingModel;

    open spec fn view(&self) -> StandingModel {
        StandingModel {
            unauthorized: self.unauthorized@,
            refused: self.refused@,
            trusts: self.trusts@,
        }
    }
}

impl Row for Standing {
    fn dup(&self) -> (r: Self) {
        Standing {
            unauthorized: self.unauthorized.copy(),
            refused: self.refused.copy(),
            trusts: self.trusts.copy(),
        }
    }
}

/// Whether a grant stands by itself: it is current, so are its family and its client, its scopes
/// and resource are still registered, and the policies on its identity accept it.
pub open spec fn local_check(
    t: TxModel,
    key: Seq<char>,
    g: GrantModel,
    s: StandingModel,
) -> Result<(), Failure> {
    if g.expires_at <= t.now || g.used || !t.families.dom().contains(g.family_id)
        || t.families[g.family_id].revoked || t.families[g.family_id].expires_at <= t.now
        || !active_client(t, g.client_id) {
        Err(Failure::Unauthorized)
    } else {
        let c = t.clients[g.client_id];
        if resource_check(c, g.resource, g.scopes) is Err || (g.machine_trust_hash is Some
            && !s.trusts.contains(key)) || !g.scopes.subset_of(c.scopes) {
            Err(Failure::Unauthorized)
        } else if g.identity is Some {
            if s.unauthorized.contains(key) {
                Err(Failure::Unauthorized)
            } else if s.refused.contains(key) {
                Err(Failure::Refused("identity"@))
            } else {
                Ok(())
            }
        } else if !c.service {
            Err(Failure::Unauthorized)
        } else {
            Ok(())
        }
    }
}

impl Core {
    pub fn validate_grant_local(&self, tx: &Tx, key: &str, grant: &Grant, standing: &Standing) -> (r:
        Result<Client, Error>)
        ensures
            match local_check(tx@, key@, grant@, standing@) {
                Ok(_) => r is Ok && r->Ok_0@ == tx@.clients[grant@.client_id],
                Err(f) => r is Err && r->Err_0@ == f,
            },
    {
        if grant.expires_at <= tx.now || grant.used {
            return Err(Error::Unauthorized);
        }
        match tx.families.get(grant.family_id.as_str()) {
            None => return Err(Error::Unauthorized),
            Some(f) => {
                if f.revoked || f.expires_at <= tx.now {
                    return Err(Error::Unauthorized);
                }
            },
        }
        let client = match get_client(tx, grant.client_id.as_str()) {
            Ok(c) => c,
            Err(_) => return Err(Error::Unauthorized),
        };
        let resource = match &grant.resource {
            Some(x) => Some(x.as_str()),
            None => None,
        };
        if let Err(_) = crate::resource::validate(&client, resource, &grant.scopes) {
            return Err(Error::Unauthorized);
        }
        if grant.machine_trust_hash.is_some() && !standing.trusts.contains(key) {
            return Err(Error::Unauthorized);
        }
        if !grant.scopes.is_subset(&client.scopes) {
            return Err(Error::Unauthorized);
        }
        if grant.identity.is_some() {
            if standing.unauthorized.contains(key) {
                return Err(Error::Unauthorized);
            }
            if standing.refused.contains(key) {
                return Err(Error::Refused("identity".to_owned()));
            }
        } else if !client.service {
            return Err(Error::Unauthorized);
        }
        Ok(client)
    }

    /// Whether a stored grant can be used now, with everything that it was exchanged from.
    pub fn validate_grant(&self, tx: &Tx, key: &str, grant: &Grant, standing: &Standing) -> (r: Result<
        Client,
        Error,
    >)
        ensures
            match chain_check(tx@, key@, grant@, 0, standing@) {
                Ok(_) => r is Ok && r->Ok_0@ == tx@.clients[grant@.client_id],
                Err(f) => r is Err && r->Err_0@ == f,
            },
    {
        self.validate_grant_chain(tx, key, grant, 0, standing)
    }
}

/// How long a new grant lives: with offline access as long as its refresh tokens.
pub open spec fn grant_ttl(
    cfg: ConfigModel,
    c: ClientModel,
    identity: Option<IdentityModel>,
    scopes: Set<Seq<char>>,
) -> u64 {
    if identity is Some && scopes.contains("offline_access"@) {
        match c.settings.refresh_token_ttl {
            Some(v) => v,
            None => cfg.refresh_token_ttl,
        }
    } else {
        access_ttl(cfg, c)
    }
}

pub open spec fn access_ttl(cfg: ConfigModel, c: ClientModel) -> u64 {
    match c.settings.access_token_ttl {
        Some(v) => v,
        None => cfg.access_token_ttl,
    }
}

/// A grant of a new family.
pub open spec fn fresh_grant(
    t: TxModel,
    cfg: ConfigModel,
    c: ClientModel,
    identity: Option<IdentityModel>,
    scopes: Set<Seq<char>>,
    nonce: Option<Seq<char>>,
) -> GrantModel {
    GrantModel {
        resource: None,
        confirmation_jkt: None,
        id_token_jkt: None,
        claims_request: JsonModel::Null,
        acr_values: None,
        machine_trust_hash: None,
        exchange: None,
        client_id: c.id,
        identity,
        scopes,
        nonce,
        family_id: next_id(t),
        issued_at: t.now,
        expires_at: extended(t.now, grant_ttl(cfg, c, identity, scopes)),
        used: false,
    }
}

/// The store after a family was opened that ends at `expires_at`.
pub open spec fn family_opened(t: TxModel, expires_at: u64) -> TxModel {
    TxModel {
        families: t.families.insert(next_id(t), FamilyModel { expires_at, revoked: false }),
        ..drawn(t)
    }
}

impl Core {
    /// Opens a family and makes its first grant.
    pub fn new_grant(
        &self,
        tx: &mut Tx,
        client: &Client,
        identity: Option<Identity>,
        scopes: Names,
        nonce: Option<String>,
    ) -> (r: Grant)
        ensures
            r@ == fresh_grant(
                old(tx)@,
                self@.config,
                client@,
                opt_view(identity),
                scopes@,
                opt_text(nonce),
            ),
            final(tx)@ == family_opened(old(tx)@, r@.expires_at),
    {
        let at = tx.now;
        let ttl = if identity.is_some() && scopes.contains("offline_access") {
            match client.settings.refresh_token_ttl {
                Some(v) => v,
                None => self.config.refresh_token_ttl,
            }
        } else {
            match client.settings.access_token_ttl {
                Some(v) => v,
                None => self.config.access_token_ttl,
            }
        };
        let expires_at = at.saturating_add(ttl);
        let family_id = tx.id();
        tx.families.put(family_id.as_str(), Family { expires_at, revoked: false });
        Grant {
            resource: None,
            confirmation_jkt: None,
            id_token_jkt: None,
            claims_request: Json::Null,
            acr_values: None,
            machine_trust_hash: None,
            exchange: None,
            client_id: client.id.clone(),
            identity,
            scopes,
            nonce,
            family_id,
            issued_at: at,
            expires_at,
            used: false,
        }
    }
}

/// What an accepted proof of possession binds a grant to.
pub struct Proof {
    pub confirmation_jkt: Option<String>,
    pub id_token_jkt: Option<String>,
}

/// What a [`Proof`] holds.
pub struct ProofModel {
    pub confirmation_jkt: Option<Seq<char>>,
    pub id_token_jkt: Option<Seq<char>>,
}

impl View for Proof {
    type V = ProofModel;

    open spec fn view(&self) -> ProofModel {
        ProofModel {
            confirmation_jkt: crate::text::opt_text(self.confirmation_jkt),
            id_token_jkt: crate::text::opt_text(self.id_token_jkt),
        }
    }
}

impl Row for Proof {
    fn dup(&self) -> (r: Self) {
        Proof {
            confirmation_jkt: crate::text::copy_opt(&self.confirmation_jkt),
            id_token_jkt: crate::text::copy_opt(&self.id_token_jkt),
        }
    }
}

/// A grant with the keys that a proof binds it to.
pub open spec fn proved(g: GrantModel, p: ProofModel) -> GrantModel {
    GrantModel { confirmation_jkt: p.confirmation_jkt, id_token_jkt: p.id_token_jkt, ..g }
}

/// The failure of a proof that was refused.
pub open spec fn proof_failure() -> Failure {
    Failure::Refused("dpop"@)
}

pub open spec fn opt_proof(p: Option<&Proof>) -> Option<ProofModel> {
    match p {
        Some(x) => Some(x@),
        None => None,
    }
}

/// A code verifier: 43 to 128 unreserved characters.
pub open spec fn well_formed_verifier(v: Seq<char>) -> bool {
    43 <= v.len() <= 128 && forall|i: int|
        0 <= i < v.len() ==> ascii_alphanumeric(#[trigger] v[i]) || v[i] == '-' || v[i] == '.' || v[i]
            == '_' || v[i] == '~'
}

fn is_verifier(s: &str) -> (r: bool)
    ensures
        r == well_formed_verifier(s@),
{
    let v = chars_of(s);
    let mut i: usize = 0;
    while i < v.len()
        invariant
            i <= v.len(),
            v@ == s@,
            forall|j: int|
                0 <= j < i ==> ascii_alphanumeric(#[trigger] s@[j]) || s@[j] == '-' || s@[j] == '.'
                    || s@[j] == '_' || s@[j] == '~',
        decreases v.len() - i,
    {
        let c = v[i];
        if !(is_alphanumeric(c) || c == '-' || c == '.' || c == '_' || c == '~') {
            assert(!(ascii_alphanumeric(s@[i as int]) || s@[i as int] == '-' || s@[i as int] == '.'
                || s@[i as int] == '_' || s@[i as int] == '~'));
            return false;
        }
        i = i + 1;
    }
    v.len() >= 43 && v.len() <= 128
}

/// The request presents the code as it was issued: in time, by its client, at its redirect, with
/// the verifier of its challenge.
pub open spec fn redeemable(t: TxModel, c: ClientModel, code: CodeModel, r: TokenRequestModel) -> bool {
    &&& code.expires_at > t.now
    &&& code.client_id == c.id
    &&& r.redirect_uri == Some(code.redirect_uri)
    &&& redirect_registered(c, code.redirect_uri)
    &&& code.scopes.subset_of(c.scopes)
}

/// The family is revoked, where it still exists.
pub open spec fn family_revoked(t: TxModel, family: Seq<char>) -> TxModel {
    if t.families.dom().contains(family) {
        TxModel {
            families: t.families.insert(
                family,
                FamilyModel { revoked: true, ..t.families[family] },
            ),
            ..t
        }
    } else {
        t
    }
}

pub fn revoke_family(tx: &mut Tx, family: &str)
    ensures
        final(tx)@ == family_revoked(old(tx)@, family@),
{
    let row = match tx.families.get(family) {
        Some(f) => Some(Family { expires_at: f.expires_at, revoked: true }),
        None => None,
    };
    if let Some(f) = row {
        tx.families.put(family, f);
    }
}

/// What redeeming a code answers, before anything of a first redemption is written.
pub open spec fn code_check(
    t: TxModel,
    r: TokenRequestModel,
    verified: Option<AssertionClaimsModel>,
) -> Result<(ClientModel, CodeModel), Failure> {
    if !authenticates(t, r, false, verified) {
        Err(client_failure())
    } else {
        let c = t.clients[r.client_id->0];
        if grant_check(c, "authorization_code"@) is Err {
            Err(grant_check(c, "authorization_code"@)->Err_0)
        } else if !given(r.code) {
            Err(Failure::Bad("Missing "@ + "code"@))
        } else if !t.codes.dom().contains(digest_of(r.code->0)) || !redeemable(
            t,
            c,
            t.codes[digest_of(r.code->0)],
            r,
        ) {
            Err(grant_failure())
        } else if !given(r.code_verifier) {
            Err(Failure::Bad("Missing "@ + "code_verifier"@))
        } else if !well_formed_verifier(r.code_verifier->0) || digest_of(r.code_verifier->0)
            != t.codes[digest_of(r.code->0)].challenge {
            Err(grant_failure())
        } else {
            Ok((c, t.codes[digest_of(r.code->0)]))
        }
    }
}

/// Why the replay of a bound code is not even noted: it lacks the key of the first redemption.
pub open spec fn replay_check(code: CodeModel, r: TokenRequestModel, key: Option<Seq<char>>) -> Result<
    (),
    Failure,
> {
    match code.dpop_jkt {
        None => Ok(()),
        Some(expected) => if r.dpop_proof is None {
            Err(
                Failure::Oauth(
                    "invalid_dpop_proof"@,
                    "Code replay requires the original proof key"@,
                ),
            )
        } else if key is None {
            Err(proof_failure())
        } else if key != Some(expected) {
            Err(Failure::Oauth("invalid_dpop_proof"@, "Code belongs to another proof key"@))
        } else {
            Ok(())
        },
    }
}

/// The grant of a first redemption.
pub open spec fn code_grant(
    t: TxModel,
    cfg: ConfigModel,
    c: ClientModel,
    code: CodeModel,
    p: ProofModel,
) -> GrantModel {
    GrantModel {
        resource: code.resource,
        claims_request: code.claims_request,
        acr_values: code.acr_values,
        ..proved(
            fresh_grant(t, cfg, c, Some(code.identity), code.scopes, code.nonce),
            p,
        )
    }
}

/// A code after its redemption: it remembers the family, so that a replay revokes it.
pub open spec fn code_spent(code: CodeModel, g: GrantModel) -> CodeModel {
    CodeModel {
        dpop_jkt: if g.confirmation_jkt is Some {
            g.confirmation_jkt
        } else {
            g.id_token_jkt
        },
        issued_family: Some(g.family_id),
        expires_at: g.expires_at,
        ..code
    }
}

/// What redeeming a code leaves in the store and answers.
pub open spec fn code_exchange(
    t: TxModel,
    cfg: ConfigModel,
    r: TokenRequestModel,
    verified: Option<AssertionClaimsModel>,
    identity_ok: bool,
    possession: Option<ProofModel>,
    proof_key: Option<Seq<char>>,
) -> (TxModel, Result<GrantModel, Failure>) {
    match code_check(t, r, verified) {
        Err(f) => (t, Err(f)),
        Ok((c, code)) => match code.issued_family {
            Some(family) => match replay_check(code, r, proof_key) {
                Err(f) => (t, Err(f)),
                Ok(_) => (
                    audited(
                        family_revoked(authenticated(t, r, verified), family),
                        c.id,
                        "authorization_code.replay"@,
                        family,
                    ),
                    Err(grant_failure()),
                ),
            },
            None => if !identity_ok {
                (t, Err(grant_failure()))
            } else if possession is None {
                (t, Err(proof_failure()))
            } else if bind_check(c, code.scopes, r.resource, code.resource) is Err {
                (t, Err(bind_check(c, code.scopes, r.resource, code.resource)->Err_0))
            } else {
                let t1 = authenticated(t, r, verified);
                let g = code_grant(t1, cfg, c, code, possession->0);
                let t2 = family_opened(t1, g.expires_at);
                (
                    TxModel {
                        codes: t2.codes.insert(digest_of(r.code->0), code_spent(code, g)),
                        ..t2
                    },
                    Ok(g),
                )
            },
        },
    }
}

impl Core {
    /// Redeems an authorization code. The first redemption gives the grant that the caller issues
    /// tokens for in the same transaction; a replay revokes the tokens of the first one.
    ///
    /// `identity_ok` says whether the identity policies accept the code's identity for its client,
    /// `possession` what the possession proof binds the grant to (`None` where it was refused), and
    /// `proof_key` the key of a valid proof for a replay.
    pub fn exchange_code_with(
        &self,
        tx: &mut Tx,
        request: &TokenRequest,
        verified: &Option<AssertionClaims>,
        identity_ok: bool,
        possession: Option<&Proof>,
        proof_key: &Option<String>,
    ) -> (r: Result<Grant, Error>)
        ensures
            ({
                let out = code_exchange(
                    old(tx)@,
                    self@.config,
                    request@,
                    opt_view(*verified),
                    identity_ok,
                    opt_proof(possession),
                    opt_text(*proof_key),
                );
                final(tx)@ == out.0 && agrees_with(r, out.1)
            }),
    {
        let client = match check_client(tx, request, false, verified) {
            Ok(c) => c,
            Err(e) => return Err(e),
        };
        if let Err(e) = grant_allowed(&client, "authorization_code") {
            return Err(e);
        }
        let presented = match required(&request.code, "code") {
            Ok(c) => c,
            Err(e) => return Err(e),
        };
        let key = digest(presented);
        let mut code = match tx.codes.get(key.as_str()) {
            Some(c) => c.dup(),
            None => return Err(invalid_grant()),
        };
        if code.expires_at <= tx.now || !same(code.client_id.as_str(), client.id.as_str()) || !opt_is(
            &request.redirect_uri,
            code.redirect_uri.as_str(),
        ) || !redirect_matches(&client, code.redirect_uri.as_str()) || !code.scopes.is_subset(
            &client.scopes,
        ) {
            return Err(invalid_grant());
        }
        let verifier = match required(&request.code_verifier, "code_verifier") {
            Ok(v) => v,
            Err(e) => return Err(e),
        };
        let hash = digest(verifier);
        if !is_verifier(verifier) || !same(hash.as_str(), code.challenge.as_str()) {
            return Err(invalid_grant());
        }
        if let Some(family) = &code.issued_family {
            if let Some(expected) = &code.dpop_jkt {
                if request.dpop_proof.is_none() {
                    return Err(
                        Error::oauth(
                            "invalid_dpop_proof",
                            "Code replay requires the original proof key",
                        ),
                    );
                }
                match proof_key {
                    None => return Err(Error::Refused("dpop".to_owned())),
                    Some(k) => {
                        if !same(k.as_str(), expected.as_str()) {
                            return Err(
                                Error::oauth(
                                    "invalid_dpop_proof",
                                    "Code belongs to another proof key",
                                ),
                            );
                        }
                    },
                }
            }
            note_client(tx, request, false, verified);
            revoke_family(tx, family.as_str());
            audit(tx, client.id.as_str(), "authorization_code.replay", family.as_str());
            return Err(invalid_grant());
        }
        if !identity_ok {
            return Err(invalid_grant());
        }
        let bound = match possession {
            Some(p) => p,
            None => return Err(Error::Refused("dpop".to_owned())),
        };
        let asked = match &request.resource {
            Some(x) => Some(x.as_str()),
            None => None,
        };
        let granted = match &code.resource {
            Some(x) => Some(x.as_str()),
            None => None,
        };
        if let Err(e) = check_bind(&client, &code.scopes, asked, granted) {
            return Err(e);
        }
        note_client(tx, request, false, verified);
        let mut grant = self.new_grant(
            tx,
            &client,
            Some(code.identity.dup()),
            code.scopes.copy(),
            copy_opt(&code.nonce),
        );
        grant.confirmation_jkt = copy_opt(&bound.confirmation_jkt);
        grant.id_token_jkt = copy_opt(&bound.id_token_jkt);
        grant.resource = copy_opt(&code.resource);
        grant.claims_request = code.claims_request.dup();
        grant.acr_values = copy_opt(&code.acr_values);
        code.dpop_jkt = if grant.confirmation_jkt.is_some() {
            copy_opt(&grant.confirmation_jkt)
        } else {
            copy_opt(&grant.id_token_jkt)
        };
        code.issued_family = Some(grant.family_id.clone());
        code.expires_at = grant.expires_at;
        tx.codes.put(key.as_str(), code);
        Ok(grant)
    }
}

/// A code gives one grant. Presented again while it is remembered, it revokes the family of that
/// grant and gives nothing.
pub proof fn codes_are_redeemed_once(
    t: TxModel,
    cfg: ConfigModel,
    r: TokenRequestModel,
    verified: Option<AssertionClaimsModel>,
    possession: Option<ProofModel>,
    identity_ok: bool,
    again: Option<ProofModel>,
    proof_key: Option<Seq<char>>,
)
    requires
        code_exchange(t, cfg, r, verified, true, possession, None).1 is Ok,
    ensures
        ({
            let t1 = code_exchange(t, cfg, r, verified, true, possession, None).0;
            let g = code_exchange(t, cfg, r, verified, true, possession, None).1->Ok_0;
            let out = code_exchange(t1, cfg, r, verified, identity_ok, again, proof_key);
            &&& out.1 is Err
            &&& code_check(t1, r, verified) is Ok && replay_check(
                t1.codes[digest_of(r.code->0)],
                r,
                proof_key,
            ) is Ok ==> out.0.families[g.family_id].revoked
        }),
{
    let t1 = code_exchange(t, cfg, r, verified, true, possession, None).0;
    let g = code_exchange(t, cfg, r, verified, true, possession, None).1->Ok_0;
    assert(t1.codes[digest_of(r.code->0)].issued_family == Some(g.family_id));
    assert(t1.families.dom().contains(g.family_id));
}

pub open spec fn text_value(o: Option<Seq<char>>) -> JsonModel {
    match o {
        Some(t) => JsonModel::Text(t),
        None => JsonModel::Null,
    }
}

fn write_value(o: &Option<String>) -> (r: Json)
    ensures
        r@ == text_value(opt_text(*o)),
{
    match o {
        Some(t) => text(t.as_str()),
        None => Json::Null,
    }
}

/// An authorization request as JSON.
pub open spec fn request_json(a: AuthorizationModel) -> JsonModel {
    JsonModel::Object(
        seq![
            ("resource"@, text_value(a.resource)),
            ("dpop_jkt"@, text_value(a.dpop_jkt)),
            ("claims"@, text_value(a.claims)),
            ("acr_values"@, text_value(a.acr_values)),
            ("request_uri"@, text_value(a.request_uri)),
            ("request_object_hash"@, text_value(a.request_object_hash)),
            ("response_type"@, JsonModel::Text(a.response_type)),
            ("client_id"@, JsonModel::Text(a.client_id)),
            ("redirect_uri"@, JsonModel::Text(a.redirect_uri)),
            ("scope"@, JsonModel::Text(a.scope)),
            ("state"@, text_value(a.state)),
            ("nonce"@, text_value(a.nonce)),
            ("code_challenge"@, JsonModel::Text(a.code_challenge)),
            ("code_challenge_method"@, JsonModel::Text(a.code_challenge_method)),
            ("prompt"@, text_value(a.prompt)),
            (
                "max_age"@,
                match a.max_age {
                    Some(n) => JsonModel::Unsigned(n),
                    None => JsonModel::Null,
                },
            ),
            ("response_mode"@, text_value(a.response_mode)),
            ("decision"@, text_value(a.decision)),
            ("transaction_id"@, text_value(a.transaction_id)),
            ("request_binding"@, text_value(a.request_binding)),
        ],
    )
}

/// An authorization request as JSON text.
pub open spec fn request_text(a: AuthorizationModel) -> Seq<char> {
    json_text(request_json(a))
}

/// What stands for a request, whatever is decided on it and under whichever transaction.
pub open spec fn hash_of_request(a: AuthorizationModel) -> Seq<char> {
    digest_of(request_text(AuthorizationModel { decision: None, transaction_id: None, ..a }))
}

impl Authorization {
    /// What stands for this request, whatever is decided on it and under whichever transaction.
    pub fn request_hash(&self) -> (r: String)
        ensures
            r@ == digest_of(
                request_text(AuthorizationModel { decision: None, transaction_id: None, ..self@ }),
            ),
    {
        let mut m: Vec<Member> = Vec::new();
        m.push(member("resource", write_value(&self.resource)));
        m.push(member("dpop_jkt", write_value(&self.dpop_jkt)));
        m.push(member("claims", write_value(&self.claims)));
        m.push(member("acr_values", write_value(&self.acr_values)));
        m.push(member("request_uri", write_value(&self.request_uri)));
        m.push(member("request_object_hash", write_value(&self.request_object_hash)));
        m.push(member("response_type", text(self.response_type.as_str())));
        m.push(member("client_id", text(self.client_id.as_str())));
        m.push(member("redirect_uri", text(self.redirect_uri.as_str())));
        m.push(member("scope", text(self.scope.as_str())));
        m.push(member("state", write_value(&self.state)));
        m.push(member("nonce", write_value(&self.nonce)));
        m.push(member("code_challenge", text(self.code_challenge.as_str())));
        m.push(member("code_challenge_method", text(self.code_challenge_method.as_str())));
        m.push(member("prompt", write_value(&self.prompt)));
        m.push(
            member(
                "max_age",
                match self.max_age {
                    Some(n) => Json::Unsigned(n),
                    None => Json::Null,
                },
            ),
        );
        m.push(member("response_mode", write_value(&self.response_mode)));
        m.push(member("decision", Json::Null));
        m.push(member("transaction_id", Json::Null));
        m.push(member("request_binding", write_value(&self.request_binding)));
        proof {
            lemma_members_of(m);
            let a = AuthorizationModel { decision: None, transaction_id: None, ..self@ };
            assert(members_of(m@) =~= request_json(a)->Object_0);
        }
        let j = Json::Object(m);
        let t = to_text(&j);
        digest(t.as_str())
    }
}

/// The address that client and workload assertions are made for.
pub open spec fn token_endpoint(issuer: Seq<char>) -> Seq<char> {
    trim_end_char(issuer, '/') + "/oauth/token"@
}

pub fn token_audience(issuer: &str) -> (r: String)
    ensures
        r@ == token_endpoint(issuer@),
{
    let base = trim_end_of(issuer, '/');
    concat(base.as_str(), "/oauth/token")
}

/// The claims are those of the request's assertion, which one of the client's pinned keys signed,
/// with the client as its issuer and the token endpoint as its audience.
pub open spec fn assertion_stands(t: TxModel, q: TokenRequestModel, c: AssertionClaimsModel) -> bool {
    q.client_id is Some && t.clients.dom().contains(q.client_id->0)
        && t.clients[q.client_id->0].settings.jwks is Some && q.client_assertion is Some && t.issuer is Some
        && token_stands(
        t.clients[q.client_id->0].settings.jwks->0,
        q.client_assertion->0,
        q.client_id->0,
        token_endpoint(t.issuer->0),
        c,
    )
}

/// No claims, or those of the request's assertion, verified.
pub open spec fn claims_offered(
    t: TxModel,
    q: TokenRequestModel,
    v: Option<AssertionClaimsModel>,
) -> bool {
    v matches Some(c) ==> assertion_stands(t, q, c)
}

/// What of a request is verified: the pinned keys of its client, its assertion, and the issuer and
/// the audience that the assertion must name.
pub open spec fn asserted(t: TxModel, q: TokenRequestModel) -> Option<
    (PublicJwksModel, Seq<char>, Seq<char>, Seq<char>),
> {
    if q.client_id is Some && t.clients.dom().contains(q.client_id->0)
        && t.clients[q.client_id->0].settings.jwks is Some && q.client_assertion is Some
        && t.issuer is Some {
        Some(
            (
                t.clients[q.client_id->0].settings.jwks->0,
                q.client_assertion->0,
                q.client_id->0,
                token_endpoint(t.issuer->0),
            ),
        )
    } else {
        None
    }
}

/// The claims that a verification gave, if it succeeded.
pub open spec fn claims_given(r: Result<AssertionClaims, Error>) -> Option<AssertionClaimsModel> {
    match r {
        Ok(c) => Some(c@),
        Err(_) => None,
    }
}

/// The claims of a request's assertion, as `verify` finds them. It is asked about that assertion
/// alone, under the keys and for the parties that fit, and whatever it answers decides; it is not
/// asked where there is nothing to verify.
pub fn read_assertion_by<F: FnOnce(&PublicJwks, &str, &str, &str) -> Result<AssertionClaims, Error>>(
    tx: &Tx,
    request: &TokenRequest,
    verify: F,
) -> (r: Option<AssertionClaims>)
    requires
        forall|k: &PublicJwks, t: &str, i: &str, a: &str| #[trigger] verify.requires((k, t, i, a)),
    ensures
        match asserted(tx@, request@) {
            None => r is None,
            Some(p) => exists|
                k: &PublicJwks,
                t: &str,
                i: &str,
                a: &str,
                out: Result<AssertionClaims, Error>,
            |
                {
                    &&& #[trigger] verify.ensures((k, t, i, a), out)
                    &&& (k@, t@, i@, a@) == p
                    &&& opt_view(r) == claims_given(out)
                },
        },
{
    let cid = match &request.client_id {
        None => return None,
        Some(c) => c.as_str(),
    };
    let token = match &request.client_assertion {
        None => return None,
        Some(t) => t.as_str(),
    };
    let issuer = match &tx.issuer {
        None => return None,
        Some(i) => i.as_str(),
    };
    match tx.clients.get(cid) {
        None => None,
        Some(client) => match &client.settings.jwks {
            None => None,
            Some(keys) => {
                let audience = token_audience(issuer);
                match verify(keys, token, cid, audience.as_str()) {
                    Ok(c) => Some(c),
                    Err(_) => None,
                }
            },
        },
    }
}

/// Verifies an assertion under pinned keys at this time.
pub(crate) fn verify_now(keys: &PublicJwks, token: &str, issuer: &str, audience: &str) -> (r: Result<
    AssertionClaims,
    Error,
>)
    ensures
        verified_claims(keys@, token@, issuer@, audience@, false, r),
{
    keys.verify(token, issuer, audience)
}

/// Verifies the assertion of a request under the pinned keys of its client.
pub fn read_assertion(tx: &Tx, request: &TokenRequest) -> (r: Option<AssertionClaims>)
    ensures
        claims_offered(tx@, request@, opt_view(r)),
{
    read_assertion_by(tx, request, verify_now)
}

impl Core {
    /// Redeems an authorization code. The first redemption gives the grant that the caller issues
    /// tokens for in the same transaction; a replay revokes the tokens of the first one.
    ///
    /// `identity_ok` says whether the identity policies accept the code's identity for its client,
    /// `possession` what the possession proof binds the grant to (`None` where it was refused), and
    /// `proof_key` the key of a valid proof for a replay.
    pub fn exchange_code(
        &self,
        tx: &mut Tx,
        request: &TokenRequest,
        identity_ok: bool,
        possession: Option<&Proof>,
        proof_key: &Option<String>,
    ) -> (r: Result<Grant, Error>)
        ensures
            exists|v: Option<AssertionClaimsModel>| #[trigger] claims_offered(old(tx)@, request@, v) && (({
                let out = code_exchange(
                    old(tx)@,
                    self@.config,
                    request@,
                    v,
                    identity_ok,
                    opt_proof(possession),
                    opt_text(*proof_key),
                );
                final(tx)@ == out.0 && agrees_with(r, out.1)
            })),
    {
        let verified = read_assertion(tx, request);
        assert(claims_offered(tx@, request@, opt_view(verified)));
        self.exchange_code_with(tx, request, &verified, identity_ok, possession, proof_key)
    }
}

/// Authenticates the client of a request: by assertion, by secret, or as a public client.
pub fn authenticate_client(
    tx: &mut Tx,
    request: &TokenRequest,
    confidential: bool,
) -> (r: Result<Client, Error>)
    ensures
        exists|v: Option<AssertionClaimsModel>| #[trigger] claims_offered(old(tx)@, request@, v) && (r is Ok == authenticates(old(tx)@, request@, confidential, v)) && (r is Ok ==> r->Ok_0@ == old(tx)@.clients[request@.client_id->0]) && (r is Err ==> r->Err_0@ == client_failure()) && (final(tx)@ == if r is Ok {
            authenticated(old(tx)@, request@, v)
        } else {
            old(tx)@
        }),
{
    let verified = read_assertion(tx, request);
    assert(claims_offered(tx@, request@, opt_view(verified)));
    authenticate_client_with(tx, request, confidential, &verified)
}


/// Who authenticates as a client. A confidential client presents the secret that it registered; a
/// public one presents none, and counts only where no proof is asked for; one that registered a method
/// uses that method. Nobody else authenticates without an assertion.
pub proof fn clients_authenticate_with_their_secret(
    t: TxModel,
    r: TokenRequestModel,
    confidential: bool,
)
    requires
        r.client_assertion is None,
        r.client_assertion_type is None,
    ensures
        authenticates(t, r, confidential, None) <==> {
            let c = t.clients[r.client_id->0];
            &&& r.client_id is Some && (r.client_id->0).len() > 0
            &&& t.clients.dom().contains(r.client_id->0)
            &&& c.enabled
            &&& c.secret_hash matches Some(h) ==> r.client_secret is Some && digest_of(
                r.client_secret->0,
            ) == h
            &&& c.secret_hash is None ==> r.client_secret is None && !confidential
            &&& c.settings.token_endpoint_auth_method matches Some(m) ==> m == if r.client_secret is None {
                ClientAuthMethod::Public
            } else if r.client_auth_method is Some {
                r.client_auth_method->0
            } else {
                ClientAuthMethod::ClientSecretPost
            }
        },
{
}

/// A client whose registration asks for an assertion authenticates with one: it was verified, it
/// names the client as its subject, it is short-lived, and it was not used before. It is remembered.
pub proof fn clients_authenticate_with_an_assertion_once(
    t: TxModel,
    r: TokenRequestModel,
    confidential: bool,
    claims: AssertionClaimsModel,
)
    requires
        r.client_assertion is Some,
        r.client_assertion_type == Some("urn:ietf:params:oauth:client-assertion-type:jwt-bearer"@),
        r.client_id is Some && (r.client_id->0).len() > 0,
        t.clients.dom().contains(r.client_id->0) && t.clients[r.client_id->0].enabled,
        t.clients[r.client_id->0].settings.token_endpoint_auth_method == Some(
            ClientAuthMethod::PrivateKeyJwt,
        ),
        t.clients[r.client_id->0].settings.jwks is Some,
        r.client_secret is None,
        t.issuer is Some,
        claims.sub == r.client_id,
        claims.iat is Some && claims.exp is Some && claims.jti is Some,
        0 < (claims.jti->0).len() && byte_count(claims.jti->0) <= 256,
        claims.iat->0 <= t.now + 30 && claims.exp->0 > t.now && claims.exp->0 > claims.iat->0,
        claims.exp->0 - claims.iat->0 <= 300 && t.now - claims.iat->0 <= 300,
    ensures
        ({
            let key = replay_key("client:"@ + r.client_id->0, claims);
            let used = t.assertion_replays.dom().contains(key) && t.assertion_replays[key] > t.now;
            let u = authenticated(t, r, Some(claims));
            &&& authenticates(t, r, confidential, Some(claims)) <==> !used
            &&& u.assertion_replays.dom().contains(key)
            &&& u.assertion_replays[key] == claims.exp->0
            &&& !authenticates(u, r, confidential, Some(claims))
        }),
{
}

/// The grant that a code gives is what was approved: for the client of the code, the login, the
/// scopes, the nonce, the resource and the claims that were asked for, bound to the key that was
/// proved, from now until the lifetime of its tokens ends. It is the first of a new family.
pub proof fn codes_give_what_was_approved(
    t: TxModel,
    cfg: ConfigModel,
    r: TokenRequestModel,
    verified: Option<AssertionClaimsModel>,
    identity_ok: bool,
    possession: Option<ProofModel>,
    proof_key: Option<Seq<char>>,
)
    requires
        code_exchange(t, cfg, r, verified, identity_ok, possession, proof_key).1 is Ok,
    ensures
        ({
            let out = code_exchange(t, cfg, r, verified, identity_ok, possession, proof_key);
            let g = out.1->Ok_0;
            let key = digest_of(r.code->0);
            let code = t.codes[key];
            let c = t.clients[r.client_id->0];
            let ttl = if code.scopes.contains("offline_access"@) {
                if c.settings.refresh_token_ttl is Some {
                    c.settings.refresh_token_ttl->0
                } else {
                    cfg.refresh_token_ttl
                }
            } else if c.settings.access_token_ttl is Some {
                c.settings.access_token_ttl->0
            } else {
                cfg.access_token_ttl
            };
            &&& g.client_id == code.client_id && g.client_id == c.id
            &&& g.identity == Some(code.identity)
            &&& g.scopes == code.scopes
            &&& g.nonce == code.nonce
            &&& g.resource == code.resource
            &&& g.claims_request == code.claims_request
            &&& g.acr_values == code.acr_values
            &&& g.confirmation_jkt == (possession->0).confirmation_jkt
            &&& g.id_token_jkt == (possession->0).id_token_jkt
            &&& g.exchange is None && g.machine_trust_hash is None && !g.used
            &&& g.issued_at == t.now
            &&& t.now + ttl <= u64::MAX ==> g.expires_at == t.now + ttl
            &&& out.0.families.dom().contains(g.family_id)
            &&& !out.0.families[g.family_id].revoked
            &&& out.0.families[g.family_id].expires_at == g.expires_at
            &&& out.0.codes[key].issued_family == Some(g.family_id)
            &&& out.0.codes[key].expires_at == g.expires_at
        }),
{
}

/// A code is redeemed where it should be: in time, by its client, at its address, with the verifier
/// of its challenge, for the first time, while its scopes and its address are still registered. What
/// does not hold of a request decides that it is refused.
pub proof fn codes_are_redeemed_as_issued(
    t: TxModel,
    cfg: ConfigModel,
    r: TokenRequestModel,
    possession: ProofModel,
)
    requires
        authenticates(t, r, false, None),
        r.client_assertion is None && r.client_assertion_type is None,
        r.code is Some && (r.code->0).len() > 0,
        r.code_verifier is Some,
        t.codes.dom().contains(digest_of(r.code->0)),
        r.resource is None,
        t.codes[digest_of(r.code->0)].resource is None,
        t.codes[digest_of(r.code->0)].issued_family is None,
        t.clients[r.client_id->0].settings.allowed_grants.contains("authorization_code"@),
    ensures
        code_exchange(t, cfg, r, None, true, Some(possession), None).1 is Ok <==> {
            let code = t.codes[digest_of(r.code->0)];
            let c = t.clients[r.client_id->0];
            let v = r.code_verifier->0;
            &&& code.expires_at > t.now
            &&& code.client_id == c.id
            &&& r.redirect_uri == Some(code.redirect_uri)
            &&& redirect_registered(c, code.redirect_uri)
            &&& code.scopes.subset_of(c.scopes)
            &&& 43 <= v.len() <= 128
            &&& forall|i: int| 0 <= i < v.len() ==> ('a' <= #[trigger] v[i] <= 'z') || ('A' <= v[i] <= 'Z') || (
            '0' <= v[i] <= '9') || v[i] == '-' || v[i] == '.' || v[i] == '_' || v[i] == '~'
            &&& digest_of(v) == code.challenge
        },
{
}

/// A grant stands exactly while it is unused and current, its family and its client are, its scopes
/// are still registered, and nothing speaks against its user; a grant without a user needs a service
/// client.
pub proof fn grants_stand_while_everything_behind_them_does(
    t: TxModel,
    key: Seq<char>,
    g: GrantModel,
    s: StandingModel,
)
    requires
        g.resource is None,
        g.machine_trust_hash is None,
    ensures
        local_check(t, key, g, s) is Ok <==> {
            &&& g.expires_at > t.now
            &&& !g.used
            &&& t.families.dom().contains(g.family_id)
            &&& !t.families[g.family_id].revoked
            &&& t.families[g.family_id].expires_at > t.now
            &&& t.clients.dom().contains(g.client_id)
            &&& t.clients[g.client_id].enabled
            &&& g.scopes.subset_of(t.clients[g.client_id].scopes)
            &&& g.identity is Some ==> !s.unauthorized.contains(key) && !s.refused.contains(key)
            &&& g.identity is None ==> t.clients[g.client_id].service
        },
{
}

/// A scope parameter asks for its words: what is granted is what stands between its blanks, no more
/// and no less.
pub proof fn scopes_are_the_words_that_were_asked(scope: Seq<char>, c: ClientModel, w: Seq<char>)
    requires
        requested_scopes(scope, c) is Ok,
    ensures
        (requested_scopes(scope, c)->Ok_0).contains(w) <==> w.len() > 0 && parts(scope, ' ').contains(w),
{
    let list = parts(scope, ' ');
    assert(list.to_set().contains(w) <==> list.contains(w));
    if w.len() == 0 {
        assert(w =~= Seq::<char>::empty());
    }
}

/// An assertion stands for the client that it names, under that client's own keys, at the token
/// endpoint.
pub proof fn assertions_stand_for_their_client(t: TxModel, q: TokenRequestModel, c: AssertionClaimsModel)
    requires
        assertion_stands(t, q, c),
    ensures
        q.client_id is Some,
        t.clients.dom().contains(q.client_id->0),
        t.clients[q.client_id->0].settings.jwks is Some,
        q.client_assertion is Some,
        t.issuer is Some,
        addressed(q.client_assertion->0, q.client_id->0, Some(token_endpoint(t.issuer->0))),
        token_claims(q.client_assertion->0) == Some(c),
        asserted(t, q) == Some(
            (
                t.clients[q.client_id->0].settings.jwks->0,
                q.client_assertion->0,
                q.client_id->0,
                token_endpoint(t.issuer->0),
            ),
        ),
{
}

} // verus!
