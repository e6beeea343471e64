//! Client registration with bounded, revocable initial access tokens.
use crate::engine::{Core, Principal, PrincipalModel, audit, audited, drawn, extended, next_id};
use crate::error::{Error, Failure, agrees, agrees_with, and_also, copy_error, fails, opt_failure};
use crate::jose::{ClientAuthMethod, PublicJwks, PublicJwksModel};
use crate::model::{Client, ClientModel, ProviderSettings, ProviderSettingsModel};
use crate::names::{Names, in_order};
use crate::oidc::{DEVICE_GRANT, requested_scopes, scope_request};
use crate::outside::{digest, digest_of};
use crate::provider::{provider_check, validate_settings};
use crate::rules::{Rules, RulesModel, name_check};
use crate::store::{Tx, TxModel};
use crate::table::{Row, dup_opt, rows_in, views};
use crate::text::{among, concat, concat3, copy_list, opt_text, same, texts};
use vstd::prelude::*;
use vstd::string::*;

verus! {

/// What a client that registers itself may be.
pub struct RegistrationTemplate {
    pub id: String,
    pub redirect_uris: Vec<String>,
    pub scopes: Names,
    pub grant_types: Names,
    pub auth_methods: Names,
    pub settings: ProviderSettings,
    pub allowed_groups: Names,
    pub require_mfa: bool,
    pub ttl: u64,
    pub max_uses: u32,
}

/// What a [`RegistrationTemplate`] holds.
pub struct RegistrationTemplateModel {
    pub id: Seq<char>,
    pub redirect_uris: Seq<Seq<char>>,
    pub scopes: Set<Seq<char>>,
    pub grant_types: Set<Seq<char>>,
    pub auth_methods: Set<Seq<char>>,
    pub settings: ProviderSettingsModel,
    pub allowed_groups: Set<Seq<char>>,
    pub require_mfa: bool,
    pub ttl: u64,
    pub max_uses: u32,
}

impl View for RegistrationTemplate {
    type V = RegistrationTemplateModel;

    open spec fn view(&self) -> RegistrationTemplateModel {
        RegistrationTemplateModel {
            id: self.id@,
            redirect_uris: crate::text::texts(self.redirect_uris@),
            scopes: self.scopes@,
            grant_types: self.grant_types@,
            auth_methods: self.auth_methods@,
            settings: self.settings@,
            allowed_groups: self.allowed_groups@,
            require_mfa: self.require_mfa,
            ttl: self.ttl,
            max_uses: self.max_uses,
        }
    }
}

impl Row for RegistrationTemplate {
    fn dup(&self) -> (r: Self) {
        RegistrationTemplate {
            id: self.id.clone(),
            redirect_uris: crate::text::copy_list(&self.redirect_uris),
            scopes: self.scopes.copy(),
            grant_types: self.grant_types.copy(),
            auth_methods: self.auth_methods.copy(),
            settings: self.settings.dup(),
            allowed_groups: self.allowed_groups.copy(),
            require_mfa: self.require_mfa,
            ttl: self.ttl,
            max_uses: self.max_uses,
        }
    }
}

/// A template with the token that registers by it.
pub struct InitialAccess {
    pub template: RegistrationTemplate,
    pub token_hash: String,
    pub created_by: String,
    pub creator_agent: bool,
    pub expires_at: u64,
    pub used: u32,
    pub enabled: bool,
}

/// What a [`InitialAccess`] holds.
pub struct InitialAccessModel {
    pub template: RegistrationTemplateModel,
    pub token_hash: Seq<char>,
    pub created_by: Seq<char>,
    pub creator_agent: bool,
    pub expires_at: u64,
    pub used: u32,
    pub enabled: bool,
}

impl View for InitialAccess {
    type V = InitialAccessModel;

    open spec fn view(&self) -> InitialAccessModel {
        InitialAccessModel {
            template: self.template@,
            token_hash: self.token_hash@,
            created_by: self.created_by@,
            creator_agent: self.creator_agent,
            expires_at: self.expires_at,
            used: self.used,
            enabled: self.enabled,
        }
    }
}

impl Row for InitialAccess {
    fn dup(&self) -> (r: Self) {
        InitialAccess {
            template: self.template.dup(),
            token_hash: self.token_hash.clone(),
            created_by: self.created_by.clone(),
            creator_agent: self.creator_agent,
            expires_at: self.expires_at,
            used: self.used,
            enabled: self.enabled,
        }
    }
}

/// A client's metadata as it registers. Unset lists have `None` as their flag.
pub struct RegistrationRequest {
    pub redirect_uris: Vec<String>,
    pub client_name: Option<String>,
    pub scope: Option<String>,
    pub grant_types: Option<Names>,
    pub response_types: Option<Names>,
    pub token_endpoint_auth_method: Option<String>,
    pub application_type: Option<String>,
    pub jwks: Option<PublicJwks>,
    pub post_logout_redirect_uris: Option<UriList>,
}

/// What a [`RegistrationRequest`] holds.
pub struct RegistrationRequestModel {
    pub redirect_uris: Seq<Seq<char>>,
    pub client_name: Option<Seq<char>>,
    pub scope: Option<Seq<char>>,
    pub grant_types: Option<Set<Seq<char>>>,
    pub response_types: Option<Set<Seq<char>>>,
    pub token_endpoint_auth_method: Option<Seq<char>>,
    pub application_type: Option<Seq<char>>,
    pub jwks: Option<PublicJwksModel>,
    pub post_logout_redirect_uris: Option<UriListModel>,
}

impl View for RegistrationRequest {
    type V = RegistrationRequestModel;

    open spec fn view(&self) -> RegistrationRequestModel {
        RegistrationRequestModel {
            redirect_uris: crate::text::texts(self.redirect_uris@),
            client_name: crate::text::opt_text(self.client_name),
            scope: crate::text::opt_text(self.scope),
            grant_types: crate::table::opt_view(self.grant_types),
            response_types: crate::table::opt_view(self.response_types),
            token_endpoint_auth_method: crate::text::opt_text(self.token_endpoint_auth_method),
            application_type: crate::text::opt_text(self.application_type),
            jwks: crate::table::opt_view(self.jwks),
            post_logout_redirect_uris: crate::table::opt_view(self.post_logout_redirect_uris),
        }
    }
}

impl Row for RegistrationRequest {
    fn dup(&self) -> (r: Self) {
        RegistrationRequest {
            redirect_uris: crate::text::copy_list(&self.redirect_uris),
            client_name: crate::text::copy_opt(&self.client_name),
            scope: crate::text::copy_opt(&self.scope),
            grant_types: crate::table::dup_opt(&self.grant_types),
            response_types: crate::table::dup_opt(&self.response_types),
            token_endpoint_auth_method: crate::text::copy_opt(&self.token_endpoint_auth_method),
            application_type: crate::text::copy_opt(&self.application_type),
            jwks: crate::table::dup_opt(&self.jwks),
            post_logout_redirect_uris: crate::table::dup_opt(&self.post_logout_redirect_uris),
        }
    }
}

/// A list of addresses.
pub struct UriList {
    pub uris: Vec<String>,
}

/// What a [`UriList`] holds.
pub struct UriListModel {
    pub uris: Seq<Seq<char>>,
}

impl View for UriList {
    type V = UriListModel;

    open spec fn view(&self) -> UriListModel {
        UriListModel {
            uris: crate::text::texts(self.uris@),
        }
    }
}

impl Row for UriList {
    fn dup(&self) -> (r: Self) {
        UriList {
            uris: crate::text::copy_list(&self.uris),
        }
    }
}

pub open spec fn metadata_failure(m: Seq<char>) -> Failure {
    Failure::Oauth("invalid_client_metadata"@, m)
}

fn metadata(m: &str) -> (e: Error)
    ensures
        e@ == metadata_failure(m@),
{
    Error::oauth("invalid_client_metadata", m)
}

pub open spec fn known_method(m: Seq<char>) -> bool {
    m == "none"@ || m == "client_secret_basic"@ || m == "client_secret_post"@ || m
        == "private_key_jwt"@
}

pub open spec fn known_grant(g: Seq<char>) -> bool {
    g == "authorization_code"@ || g == "refresh_token"@ || g == DEVICE_GRANT@
}

/// Every name satisfies `p`.
pub open spec fn all_names(s: Set<Seq<char>>, p: spec_fn(Seq<char>) -> bool) -> bool {
    forall|x: Seq<char>| #[trigger] s.contains(x) ==> p(x)
}

#[verifier::loop_isolation(false)]
fn methods_known(s: &Names) -> (r: bool)
    ensures
        r == all_names(s@, |m: Seq<char>| known_method(m)),
{
    s.listing();
    let ghost all = in_order(s@);
    let n: usize = s.len();
    let mut i: usize = 0;
    while i < n
        invariant
            i <= n,
            forall|j: int| 0 <= j < i ==> known_method(#[trigger] all[j]),
        decreases n - i,
    {
        let m = s.at(i).as_str();
        if !(same(m, "none") || same(m, "client_secret_basic") || same(m, "client_secret_post")
            || same(m, "private_key_jwt")) {
            assert(s@.contains(m@) && !known_method(m@));
            return false;
        }
        i = i + 1;
    }
    assert forall|x: Seq<char>| #[trigger] s@.contains(x) implies known_method(x) by {
        let j = all.index_of(x);
        assert(all[j] == x);
    }
    true
}

#[verifier::loop_isolation(false)]
fn grants_known(s: &Names) -> (r: bool)
    ensures
        r == all_names(s@, |m: Seq<char>| known_grant(m)),
{
    s.listing();
    let ghost all = in_order(s@);
    let n: usize = s.len();
    let mut i: usize = 0;
    while i < n
        invariant
            i <= n,
            forall|j: int| 0 <= j < i ==> known_grant(#[trigger] all[j]),
        decreases n - i,
    {
        let m = s.at(i).as_str();
        if !(same(m, "authorization_code") || same(m, "refresh_token") || same(m, DEVICE_GRANT)) {
            assert(s@.contains(m@) && !known_grant(m@));
            return false;
        }
        i = i + 1;
    }
    assert forall|x: Seq<char>| #[trigger] s@.contains(x) implies known_grant(x) by {
        let j = all.index_of(x);
        assert(all[j] == x);
    }
    true
}

/// The rules on a template that this library has. It cannot give machine or exchange trust, keys or
/// a waiver of consent.
pub open spec fn template_check(x: RegistrationTemplateModel) -> Result<(), Failure> {
    if !(60 <= x.ttl <= 2592000) || !(1 <= x.max_uses <= 1000) || x.redirect_uris.len() == 0
        || x.auth_methods == Set::<Seq<char>>::empty() || !all_names(
        x.auth_methods,
        |m: Seq<char>| known_method(m),
    ) || x.grant_types == Set::<Seq<char>>::empty() || !all_names(
        x.grant_types,
        |m: Seq<char>| known_grant(m),
    ) {
        Err(
            Failure::Bad(
                "Invalid registration template limits, grants or authentication methods"@,
            ),
        )
    } else if x.settings.exchange is Some || x.settings.exchange_from != Set::<Seq<char>>::empty()
        || x.settings.machine_trust.len() > 0 || x.settings.jwks is Some
        || x.settings.token_endpoint_auth_method is Some {
        Err(
            Failure::Bad(
                "Registration templates cannot delegate machine/exchange trust or client keys"@,
            ),
        )
    } else if x.settings.implicit_consent {
        Err(Failure::Bad("Registration templates cannot skip browser consent"@))
    } else {
        Ok(())
    }
}

fn check_template(x: &RegistrationTemplate) -> (r: Result<(), Error>)
    ensures
        agrees(r, template_check(x@)),
{
    assert(texts(x.redirect_uris@).len() == x.redirect_uris.len());
    assert(views(x.settings.machine_trust@).len() == x.settings.machine_trust.len());
    if x.ttl < 60 || x.ttl > 2592000 || x.max_uses < 1 || x.max_uses > 1000
        || x.redirect_uris.len() == 0 || x.auth_methods.is_empty() || !methods_known(
        &x.auth_methods,
    ) || x.grant_types.is_empty() || !grants_known(&x.grant_types) {
        return Err(
            Error::bad(
                "Invalid registration template limits, grants or authentication methods",
            ),
        );
    }
    if x.settings.exchange.is_some() || !x.settings.exchange_from.is_empty()
        || x.settings.machine_trust.len() > 0 || x.settings.jwks.is_some()
        || x.settings.token_endpoint_auth_method.is_some() {
        return Err(
            Error::bad(
                "Registration templates cannot delegate machine/exchange trust or client keys",
            ),
        );
    }
    if x.settings.implicit_consent {
        return Err(Error::bad("Registration templates cannot skip browser consent"));
    }
    Ok(())
}

/// The client that stands for those that the template `x` will register.
pub open spec fn sample_of(x: RegistrationTemplateModel) -> ClientModel {
    ClientModel {
        id: "registration-validation"@,
        name: "Registration validation"@,
        secret_hash: None,
        redirect_uris: x.redirect_uris,
        scopes: x.scopes,
        allowed_groups: x.allowed_groups,
        require_mfa: x.require_mfa,
        enabled: true,
        service: false,
        settings: ProviderSettingsModel { allowed_grants: x.grant_types, ..x.settings },
    }
}

/// The client that stands for those that a template will register.
pub fn sample_client(template: &RegistrationTemplate) -> (r: Client)
    ensures
        r@ == sample_of(template@),
{
    let mut settings = template.settings.dup();
    settings.allowed_grants = template.grant_types.copy();
    Client {
        id: "registration-validation".to_owned(),
        name: "Registration validation".to_owned(),
        secret_hash: None,
        redirect_uris: copy_list(&template.redirect_uris),
        scopes: template.scopes.copy(),
        allowed_groups: template.allowed_groups.copy(),
        require_mfa: template.require_mfa,
        enabled: true,
        service: false,
        settings,
    }
}

/// What the creation of a template does. `sample` is why the client rules outside the library
/// refuse its sample client.
pub open spec fn template_created(
    t: TxModel,
    actor: PrincipalModel,
    x: RegistrationTemplateModel,
    sample: Option<Failure>,
    rules: RulesModel,
) -> (TxModel, Result<(InitialAccessModel, Seq<char>), Failure>) {
    match and_also(name_check(rules, x.id), template_check(x)) {
        Err(f) => (t, Err(f)),
        Ok(_) => if sample is Some {
            (t, Err(sample->0))
        } else if provider_check(sample_of(x), rules) is Err {
            (t, Err(provider_check(sample_of(x), rules)->Err_0))
        } else if t.registrations.dom().contains(x.id) {
            (t, Err(Failure::Conflict("Registration template already exists"@)))
        } else {
            let credential = "ri_register_"@ + next_id(t);
            let record = InitialAccessModel {
                template: x,
                token_hash: digest_of(credential),
                created_by: actor.id,
                creator_agent: actor.agent,
                expires_at: extended(t.now, x.ttl),
                used: 0,
                enabled: true,
            };
            (
                audited(
                    TxModel {
                        registrations: t.registrations.insert(x.id, record),
                        registration_tokens: t.registration_tokens.insert(record.token_hash, x.id),
                        ..drawn(t)
                    },
                    actor.id,
                    "registration.create"@,
                    x.id,
                ),
                Ok((record, credential)),
            )
        },
    }
}

/// The template that a token registers by, while it stands.
pub open spec fn standing_template(t: TxModel, token: Seq<char>) -> Option<InitialAccessModel> {
    let hash = digest_of(token);
    if t.registration_tokens.dom().contains(hash) && t.registrations.dom().contains(
        t.registration_tokens[hash],
    ) {
        let r = t.registrations[t.registration_tokens[hash]];
        if r.enabled && r.expires_at > t.now && r.used < r.template.max_uses {
            Some(r)
        } else {
            None
        }
    } else {
        None
    }
}

/// Whether whoever created the template may still write clients. `agent` is why an agent may not.
pub open spec fn registrar_check(t: TxModel, r: InitialAccessModel, agent: Option<Failure>) -> Result<
    (),
    Failure,
> {
    if r.creator_agent {
        if agent is Some {
            Err(agent->0)
        } else {
            Ok(())
        }
    } else if !t.users.dom().contains(r.created_by) || !t.users[r.created_by].enabled
        || !t.users[r.created_by].admin {
        Err(Failure::Unauthorized)
    } else {
        Ok(())
    }
}

pub fn check_registrar(tx: &Tx, r: &InitialAccess, agent: &Option<Error>) -> (e: Result<(), Error>)
    ensures
        agrees(e, registrar_check(tx@, r@, opt_failure(*agent))),
{
    if r.creator_agent {
        return match agent {
            Some(x) => Err(copy_error(x)),
            None => Ok(()),
        };
    }
    let stands = match tx.users.get(r.created_by.as_str()) {
        Some(u) => u.enabled && u.admin,
        None => false,
    };
    if stands {
        Ok(())
    } else {
        Err(Error::Unauthorized)
    }
}

/// Every item of `a` is in `b`.
pub open spec fn within(a: Seq<Seq<char>>, b: Seq<Seq<char>>) -> bool {
    forall|i: int| 0 <= i < a.len() ==> b.contains(#[trigger] a[i])
}

#[verifier::loop_isolation(false)]
fn is_within(a: &Vec<String>, b: &Vec<String>) -> (r: bool)
    ensures
        r == within(texts(a@), texts(b@)),
{
    let ghost all = texts(a@);
    let mut i: usize = 0;
    while i < a.len()
        invariant
            i <= a.len(),
            forall|j: int| 0 <= j < i ==> texts(b@).contains(#[trigger] all[j]),
        decreases a.len() - i,
    {
        assert(all[i as int] == a[i as int]@);
        if !among(a[i].as_str(), b) {
            assert(!texts(b@).contains(all[i as int]));
            return false;
        }
        i = i + 1;
    }
    true
}

/// The method by which the client authenticates.
pub open spec fn method_of(q: RegistrationRequestModel) -> Seq<char> {
    match q.token_endpoint_auth_method {
        Some(m) => m,
        None => "client_secret_basic"@,
    }
}

pub open spec fn registered_grants(q: RegistrationRequestModel) -> Set<Seq<char>> {
    match q.grant_types {
        Some(g) => g,
        None => set!["authorization_code"@],
    }
}

pub open spec fn method_value(m: Seq<char>) -> Option<ClientAuthMethod> {
    if m == "none"@ {
        Some(ClientAuthMethod::Public)
    } else if m == "client_secret_basic"@ {
        Some(ClientAuthMethod::ClientSecretBasic)
    } else if m == "client_secret_post"@ {
        Some(ClientAuthMethod::ClientSecretPost)
    } else if m == "private_key_jwt"@ {
        Some(ClientAuthMethod::PrivateKeyJwt)
    } else {
        None
    }
}

/// The method needs a secret.
pub open spec fn secret_method(m: Seq<char>) -> bool {
    m == "client_secret_basic"@ || m == "client_secret_post"@
}

pub open spec fn application_kind(native: bool) -> Seq<char> {
    if native {
        "native"@
    } else {
        "web"@
    }
}

/// The request stays within the template.
pub open spec fn request_check(q: RegistrationRequestModel, x: RegistrationTemplateModel) -> Result<
    (),
    Failure,
> {
    if q.redirect_uris.len() == 0 || !within(q.redirect_uris, x.redirect_uris) {
        Err(
            Failure::Oauth(
                "invalid_redirect_uri"@,
                "Redirects must be an exact subset of the registration template"@,
            ),
        )
    } else if !x.auth_methods.contains(method_of(q)) {
        Err(metadata_failure("Authentication method is outside the template"@))
    } else if registered_grants(q) == Set::<Seq<char>>::empty() || !registered_grants(q).subset_of(
        x.grant_types,
    ) || (q.response_types is Some && q.response_types->0 != set!["code"@]) {
        Err(metadata_failure("Unsupported grant or response type"@))
    } else if q.application_type is Some && q.application_type->0 != application_kind(x.settings.native) {
        Err(metadata_failure("Application type is fixed by the template"@))
    } else if method_value(method_of(q)) is None {
        Err(metadata_failure("Unsupported authentication method"@))
    } else if q.post_logout_redirect_uris is Some && !within(
        (q.post_logout_redirect_uris->0).uris,
        x.settings.post_logout_redirect_uris,
    ) {
        Err(metadata_failure("Logout redirects are outside the template"@))
    } else {
        Ok(())
    }
}

/// The settings of the registered client.
pub open spec fn registered_settings(q: RegistrationRequestModel, x: RegistrationTemplateModel) -> ProviderSettingsModel {
    ProviderSettingsModel {
        implicit_consent: false,
        allowed_grants: registered_grants(q),
        token_endpoint_auth_method: method_value(method_of(q)),
        post_logout_redirect_uris: match q.post_logout_redirect_uris {
            Some(l) => l.uris,
            None => x.settings.post_logout_redirect_uris,
        },
        jwks: q.jwks,
        ..x.settings
    }
}

/// The client with all of the template's scopes. `id` and `secret` are drawn.
pub open spec fn registered_client(
    q: RegistrationRequestModel,
    x: RegistrationTemplateModel,
    id: Seq<char>,
    secret: Seq<char>,
) -> ClientModel {
    ClientModel {
        id: x.id + "-"@ + id,
        name: match q.client_name {
            Some(n) => n,
            None => x.id,
        },
        secret_hash: if secret_method(method_of(q)) {
            Some(digest_of(secret))
        } else {
            None
        },
        redirect_uris: q.redirect_uris,
        scopes: x.scopes,
        allowed_groups: x.allowed_groups,
        require_mfa: x.require_mfa,
        enabled: true,
        service: false,
        settings: registered_settings(q, x),
    }
}

/// The scopes that the client asked for.
pub open spec fn with_scopes(c: ClientModel, scope: Option<Seq<char>>) -> Result<ClientModel, Failure> {
    match scope {
        None => Ok(c),
        Some(s) => match requested_scopes(s, c) {
            Err(_) => Err(metadata_failure("Scopes are outside the template"@)),
            Ok(set) => Ok(ClientModel { scopes: set, ..c }),
        },
    }
}

/// A registered client, with its secret where it has one.
pub struct Registered {
    pub client: Client,
    pub secret: Option<String>,
}

/// What a [`Registered`] holds.
pub struct RegisteredModel {
    pub client: ClientModel,
    pub secret: Option<Seq<char>>,
}

impl View for Registered {
    type V = RegisteredModel;

    open spec fn view(&self) -> RegisteredModel {
        RegisteredModel {
            client: self.client@,
            secret: crate::text::opt_text(self.secret),
        }
    }
}

impl Row for Registered {
    fn dup(&self) -> (r: Self) {
        Registered {
            client: self.client.dup(),
            secret: crate::text::copy_opt(&self.secret),
        }
    }
}

/// Verdicts of the rules outside the library on the client that registers.
pub struct RegistrationReview {
    /// Why an agent that created the template may not write clients any more.
    pub agent: Option<Error>,
    /// The generated id is acceptable.
    pub id_ok: bool,
    /// The name is acceptable.
    pub name_ok: bool,
    /// The client rules outside the library accept the client.
    pub client_ok: bool,
}

/// What a [`RegistrationReview`] holds.
pub struct RegistrationReviewModel {
    pub agent: Option<Failure>,
    pub id_ok: bool,
    pub name_ok: bool,
    pub client_ok: bool,
}

impl View for RegistrationReview {
    type V = RegistrationReviewModel;

    open spec fn view(&self) -> RegistrationReviewModel {
        RegistrationReviewModel {
            agent: crate::table::opt_view(self.agent),
            id_ok: self.id_ok,
            name_ok: self.name_ok,
            client_ok: self.client_ok,
        }
    }
}

impl Row for RegistrationReview {
    fn dup(&self) -> (r: Self) {
        RegistrationReview {
            agent: crate::table::dup_opt(&self.agent),
            id_ok: self.id_ok,
            name_ok: self.name_ok,
            client_ok: self.client_ok,
        }
    }
}

/// What a registration does.
pub open spec fn registered(
    t: TxModel,
    token: Seq<char>,
    q: RegistrationRequestModel,
    v: RegistrationReviewModel,
    rules: RulesModel,
) -> (TxModel, Result<RegisteredModel, Failure>) {
    match standing_template(t, token) {
        None => (t, Err(Failure::Unauthorized)),
        Some(r) => match and_also(
            registrar_check(t, r, v.agent),
            request_check(q, r.template),
        ) {
            Err(f) => (t, Err(f)),
            Ok(_) => {
                let secret = "ri_client_"@ + next_id(t);
                let has_secret = secret_method(method_of(q));
                let u = if has_secret {
                    drawn(t)
                } else {
                    t
                };
                let c = registered_client(q, r.template, next_id(u), secret);
                if !v.id_ok {
                    (
                        t,
                        Err(
                            metadata_failure(
                                "Template id leaves insufficient space for a generated client id"@,
                            ),
                        ),
                    )
                } else {
                    match with_scopes(c, q.scope) {
                        Err(f) => (t, Err(f)),
                        Ok(client) => if !v.name_ok {
                            (t, Err(metadata_failure("Invalid client name"@)))
                        } else if !v.client_ok || provider_check(client, rules) is Err {
                            (
                                t,
                                Err(
                                    metadata_failure(
                                        "Client metadata conflicts with provider policy"@,
                                    ),
                                ),
                            )
                        } else {
                            let id = t.registration_tokens[digest_of(token)];
                            (
                                audited(
                                    TxModel {
                                        clients: t.clients.insert(client.id, client),
                                        registrations: t.registrations.insert(
                                            id,
                                            InitialAccessModel {
                                                used: (r.used + 1) as u32,
                                                ..r
                                            },
                                        ),
                                        ..drawn(u)
                                    },
                                    "registration:"@ + id,
                                    "client.register"@,
                                    client.id,
                                ),
                                Ok(
                                    RegisteredModel {
                                        client,
                                        secret: if has_secret {
                                            Some(secret)
                                        } else {
                                            None
                                        },
                                    },
                                ),
                            )
                        },
                    }
                }
            },
        },
    }
}

fn read_method(q: &RegistrationRequest) -> (r: String)
    ensures
        r@ == method_of(q@),
{
    match &q.token_endpoint_auth_method {
        Some(m) => m.clone(),
        None => "client_secret_basic".to_owned(),
    }
}

fn read_grants(q: &RegistrationRequest) -> (r: Names)
    ensures
        r@ == registered_grants(q@),
{
    match &q.grant_types {
        Some(g) => g.copy(),
        None => {
            let mut s = Names::new();
            s.insert("authorization_code");
            assert(s@ =~= set!["authorization_code"@]);
            s
        },
    }
}

fn to_method(m: &str) -> (r: Option<ClientAuthMethod>)
    ensures
        r == method_value(m@),
{
    if same(m, "none") {
        Some(ClientAuthMethod::Public)
    } else if same(m, "client_secret_basic") {
        Some(ClientAuthMethod::ClientSecretBasic)
    } else if same(m, "client_secret_post") {
        Some(ClientAuthMethod::ClientSecretPost)
    } else if same(m, "private_key_jwt") {
        Some(ClientAuthMethod::PrivateKeyJwt)
    } else {
        None
    }
}

fn check_request(q: &RegistrationRequest, x: &RegistrationTemplate) -> (r: Result<(), Error>)
    ensures
        agrees(r, request_check(q@, x@)),
{
    assert(texts(q.redirect_uris@).len() == q.redirect_uris.len());
    if q.redirect_uris.len() == 0 || !is_within(&q.redirect_uris, &x.redirect_uris) {
        return Err(
            Error::oauth(
                "invalid_redirect_uri",
                "Redirects must be an exact subset of the registration template",
            ),
        );
    }
    let method = read_method(q);
    if !x.auth_methods.contains(method.as_str()) {
        return Err(metadata("Authentication method is outside the template"));
    }
    let grants = read_grants(q);
    let mut code = Names::new();
    code.insert("code");
    assert(code@ =~= set!["code"@]);
    let other = match &q.response_types {
        Some(r) => !r.same_names(&code),
        None => false,
    };
    if grants.is_empty() || !grants.is_subset(&x.grant_types) || other {
        return Err(metadata("Unsupported grant or response type"));
    }
    let fixed = if x.settings.native {
        "native"
    } else {
        "web"
    };
    if let Some(t) = &q.application_type {
        if !same(t.as_str(), fixed) {
            return Err(metadata("Application type is fixed by the template"));
        }
    }
    if to_method(method.as_str()).is_none() {
        return Err(metadata("Unsupported authentication method"));
    }
    if let Some(l) = &q.post_logout_redirect_uris {
        if !is_within(&l.uris, &x.settings.post_logout_redirect_uris) {
            return Err(metadata("Logout redirects are outside the template"));
        }
    }
    Ok(())
}

fn make_settings(q: &RegistrationRequest, x: &RegistrationTemplate) -> (r: ProviderSettings)
    ensures
        r@ == registered_settings(q@, x@),
{
    let mut s = x.settings.dup();
    let method = read_method(q);
    s.implicit_consent = false;
    s.allowed_grants = read_grants(q);
    s.token_endpoint_auth_method = to_method(method.as_str());
    if let Some(l) = &q.post_logout_redirect_uris {
        s.post_logout_redirect_uris = copy_list(&l.uris);
    }
    s.jwks = dup_opt(&q.jwks);
    s
}

/// The client that registers with all of the template's scopes, its secret where it has one, and
/// the store after what was drawn for them.
pub open spec fn built(t: TxModel, q: RegistrationRequestModel, x: RegistrationTemplateModel) -> (
    TxModel,
    ClientModel,
    Option<Seq<char>>,
) {
    let secret = "ri_client_"@ + next_id(t);
    let u = if secret_method(method_of(q)) {
        drawn(t)
    } else {
        t
    };
    (
        drawn(u),
        registered_client(q, x, next_id(u), secret),
        if secret_method(method_of(q)) {
            Some(secret)
        } else {
            None
        },
    )
}

fn build_client(tx: &mut Tx, request: &RegistrationRequest, template: &RegistrationTemplate) -> (r: (
    Client,
    Option<String>,
))
    ensures
        ({
            let out = built(old(tx)@, request@, template@);
            final(tx)@ == out.0 && r.0@ == out.1 && opt_text(r.1) == out.2
        }),
{
    let method = read_method(request);
    let has_secret = same(method.as_str(), "client_secret_basic") || same(
        method.as_str(),
        "client_secret_post",
    );
    let secret = if has_secret {
        Some(tx.random_token("ri_client_"))
    } else {
        None
    };
    let suffix = tx.id();
    let client = Client {
        id: concat3(template.id.as_str(), "-", suffix.as_str()),
        name: match &request.client_name {
            Some(n) => n.clone(),
            None => template.id.clone(),
        },
        secret_hash: match &secret {
            Some(s) => Some(digest(s.as_str())),
            None => None,
        },
        redirect_uris: copy_list(&request.redirect_uris),
        scopes: template.scopes.copy(),
        allowed_groups: template.allowed_groups.copy(),
        require_mfa: template.require_mfa,
        enabled: true,
        service: false,
        settings: make_settings(request, template),
    };
    (client, secret)
}

/// The client that a token would register now, as the client rules outside the library are asked
/// about it.
pub open spec fn drafted(t: TxModel, token: Seq<char>, q: RegistrationRequestModel) -> Result<
    ClientModel,
    Failure,
> {
    match standing_template(t, token) {
        None => Err(Failure::Unauthorized),
        Some(r) => match request_check(q, r.template) {
            Err(f) => Err(f),
            Ok(_) => with_scopes(built(t, q, r.template).1, q.scope),
        },
    }
}

/// What the revocation of a template does.
pub open spec fn template_revoked(t: TxModel, actor: PrincipalModel, id: Seq<char>) -> (
    TxModel,
    Result<InitialAccessModel, Failure>,
) {
    if !t.registrations.dom().contains(id) {
        (t, Err(Failure::Missing("Template not found"@)))
    } else {
        let next = InitialAccessModel { enabled: false, ..t.registrations[id] };
        (
            audited(
                TxModel { registrations: t.registrations.insert(id, next), ..t },
                actor.id,
                "registration.revoke"@,
                id,
            ),
            Ok(next),
        )
    }
}

impl Core {
    /// Creates a template and the token that registers by it.
    pub fn registration_template(
        &self,
        tx: &mut Tx,
        actor: &Principal,
        template: &RegistrationTemplate,
        sample: &Option<Error>,
        rules: &Rules,
    ) -> (r: Result<(InitialAccess, String), Error>)
        ensures
            ({
                let out = template_created(
                    old(tx)@,
                    actor@,
                    template@,
                    opt_failure(*sample),
                    rules@,
                );
                final(tx)@ == out.0 && match out.1 {
                    Ok(p) => r is Ok && (r->Ok_0).0@ == p.0 && (r->Ok_0).1@ == p.1,
                    Err(f) => fails(r, f),
                }
            }),
    {
        let id = template.id.as_str();
        if let Err(e) = rules.check_name(id) {
            return Err(e);
        }
        if let Err(e) = check_template(template) {
            return Err(e);
        }
        if let Some(e) = sample {
            return Err(copy_error(e));
        }
        let stand_in = sample_client(template);
        if let Err(e) = validate_settings(&stand_in, rules) {
            return Err(e);
        }
        if tx.registrations.has(id) {
            return Err(Error::conflict("Registration template already exists"));
        }
        let credential = tx.random_token("ri_register_");
        let record = InitialAccess {
            template: template.dup(),
            token_hash: digest(credential.as_str()),
            created_by: actor.id.clone(),
            creator_agent: actor.agent,
            expires_at: tx.now.saturating_add(template.ttl),
            used: 0,
            enabled: true,
        };
        tx.registrations.put(id, record.dup());
        tx.registration_tokens.put(record.token_hash.as_str(), template.id.clone());
        audit(tx, actor.id.as_str(), "registration.create", id);
        Ok((record, credential))
    }

    /// Ends a template: its token registers nothing more.
    pub fn revoke_registration(&self, tx: &mut Tx, actor: &Principal, id: &str) -> (r: Result<
        InitialAccess,
        Error,
    >)
        ensures
            ({
                let out = template_revoked(old(tx)@, actor@, id@);
                final(tx)@ == out.0 && agrees_with(r, out.1)
            }),
    {
        let mut record = match tx.registrations.get(id) {
            None => return Err(Error::missing("Template not found")),
            Some(r) => r.dup(),
        };
        record.enabled = false;
        tx.registrations.put(id, record.dup());
        audit(tx, actor.id.as_str(), "registration.revoke", id);
        Ok(record)
    }

    /// Drafts the client that [`Core::dynamic_register`] would register now. Nothing is drawn.
    pub fn draft_client(&self, tx: &mut Tx, initial_token: &str, request: &RegistrationRequest) -> (r: Result<
        Client,
        Error,
    >)
        ensures
            final(tx)@ == old(tx)@,
            agrees_with(r, drafted(old(tx)@, initial_token@, request@)),
    {
        let hash = digest(initial_token);
        let id = match tx.registration_tokens.get(hash.as_str()) {
            None => return Err(Error::Unauthorized),
            Some(i) => i.clone(),
        };
        let record = match tx.registrations.get(id.as_str()) {
            None => return Err(Error::Unauthorized),
            Some(r) => r.dup(),
        };
        if !record.enabled || record.expires_at <= tx.now || record.used >= record.template.max_uses {
            return Err(Error::Unauthorized);
        }
        if let Err(e) = check_request(request, &record.template) {
            return Err(e);
        }
        let drawn_before: u64 = tx.drawn;
        let (mut client, _) = build_client(tx, request, &record.template);
        tx.drawn = drawn_before;
        if let Some(scope) = &request.scope {
            match scope_request(scope.as_str(), &client) {
                Err(_) => return Err(metadata("Scopes are outside the template")),
                Ok(s) => {
                    client.scopes = s;
                },
            }
        }
        Ok(client)
    }

    /// Registers a client by a template.
    pub fn dynamic_register(
        &self,
        tx: &mut Tx,
        initial_token: &str,
        request: &RegistrationRequest,
        review: &RegistrationReview,
        rules: &Rules,
    ) -> (r: Result<Registered, Error>)
        ensures
            ({
                let out = registered(old(tx)@, initial_token@, request@, review@, rules@);
                final(tx)@ == out.0 && agrees_with(r, out.1)
            }),
    {
        let hash = digest(initial_token);
        let id = match tx.registration_tokens.get(hash.as_str()) {
            None => return Err(Error::Unauthorized),
            Some(i) => i.clone(),
        };
        let mut record = match tx.registrations.get(id.as_str()) {
            None => return Err(Error::Unauthorized),
            Some(r) => r.dup(),
        };
        if !record.enabled || record.expires_at <= tx.now || record.used >= record.template.max_uses {
            return Err(Error::Unauthorized);
        }
        if let Err(e) = check_registrar(tx, &record, &review.agent) {
            return Err(e);
        }
        if let Err(e) = check_request(request, &record.template) {
            return Err(e);
        }
        if !review.id_ok {
            return Err(
                metadata("Template id leaves insufficient space for a generated client id"),
            );
        }
        let drawn_before: u64 = tx.drawn;
        let (mut client, secret) = build_client(tx, request, &record.template);
        if let Some(scope) = &request.scope {
            match scope_request(scope.as_str(), &client) {
                Err(_) => {
                    tx.drawn = drawn_before;
                    return Err(metadata("Scopes are outside the template"));
                },
                Ok(s) => {
                    client.scopes = s;
                },
            }
        }
        if !review.name_ok {
            tx.drawn = drawn_before;
            return Err(metadata("Invalid client name"));
        }
        if !review.client_ok || validate_settings(&client, rules).is_err() {
            tx.drawn = drawn_before;
            return Err(metadata("Client metadata conflicts with provider policy"));
        }
        tx.clients.put(client.id.as_str(), client.dup());
        record.used = record.used + 1;
        tx.registrations.put(id.as_str(), record);
        let actor = concat("registration:", id.as_str());
        audit(tx, actor.as_str(), "client.register", client.id.as_str());
        Ok(Registered { client, secret })
    }
}

/// A client that registered itself never has more than its template: its redirects and grants are
/// among the template's, and it cannot skip consent, hold trust of machines or exchange tokens. It
/// is the client that was drafted, and its settings meet the provider's rules.
pub proof fn registered_clients_stay_within_their_template(
    t: TxModel,
    token: Seq<char>,
    q: RegistrationRequestModel,
    v: RegistrationReviewModel,
    rules: RulesModel,
)
    requires
        registered(t, token, q, v, rules).1 is Ok,
    ensures
        ({
            let c = (registered(t, token, q, v, rules).1->Ok_0).client;
            let x = (standing_template(t, token)->0).template;
            &&& standing_template(t, token) is Some
            &&& within(c.redirect_uris, x.redirect_uris)
            &&& c.settings.allowed_grants.subset_of(x.grant_types)
            &&& !c.settings.implicit_consent
            &&& c.settings.machine_trust == x.settings.machine_trust
            &&& c.settings.exchange == x.settings.exchange
            &&& !c.service
            &&& provider_check(c, rules) is Ok
            &&& drafted(t, token, q) == Ok::<ClientModel, Failure>(c)
        }),
{
}

/// A template registers at most as many clients as it allows, and none once it is revoked.
pub proof fn templates_are_bounded(
    t: TxModel,
    token: Seq<char>,
    q: RegistrationRequestModel,
    v: RegistrationReviewModel,
    rules: RulesModel,
)
    requires
        registered(t, token, q, v, rules).1 is Ok,
    ensures
        ({
            let id = t.registration_tokens[digest_of(token)];
            let u = registered(t, token, q, v, rules).0;
            u.registrations[id].used == t.registrations[id].used + 1 && u.registrations[id].used
                <= u.registrations[id].template.max_uses && t.registrations[id].enabled
        }),
{
}

impl Core {
    /// Lists the templates that the caller may see: those whose ids are in `readable`.
    pub fn registration_templates(&self, tx: &Tx, readable: &Names) -> (r: Vec<InitialAccess>)
        ensures
            views(r@) == rows_in(tx@.registrations, in_order(tx@.registrations.dom()), readable@),
    {
        tx.registrations.rows_among(readable)
    }
}

/// A revoked template registers nobody any more, whoever still holds its token.
pub proof fn revoked_templates_register_nobody(
    t: TxModel,
    actor: PrincipalModel,
    id: Seq<char>,
    token: Seq<char>,
    q: RegistrationRequestModel,
    review: RegistrationReviewModel,
    rules: RulesModel,
)
    requires
        template_revoked(t, actor, id).1 is Ok,
        t.registration_tokens.dom().contains(digest_of(token)),
        t.registration_tokens[digest_of(token)] == id,
    ensures
        ({
            let u = template_revoked(t, actor, id).0;
            registered(u, token, q, review, rules) == (
                u,
                Err::<RegisteredModel, Failure>(Failure::Unauthorized),
            )
        }),
{
}

/// What a registration gives. The client has the addresses that were asked for, the scopes and grants
/// that were asked for or the template's, the policies of the template, and a secret where it
/// authenticates with one, which nobody but its owner is told.
pub proof fn registered_clients_are_as_asked(
    t: TxModel,
    token: Seq<char>,
    q: RegistrationRequestModel,
    v: RegistrationReviewModel,
    rules: RulesModel,
)
    requires
        registered(t, token, q, v, rules).1 is Ok,
    ensures
        ({
            let out = registered(t, token, q, v, rules);
            let c = (out.1->Ok_0).client;
            let secret = (out.1->Ok_0).secret;
            let r = t.registrations[t.registration_tokens[digest_of(token)]];
            let x = r.template;
            let method = if q.token_endpoint_auth_method is Some {
                q.token_endpoint_auth_method->0
            } else {
                "client_secret_basic"@
            };
            &&& r.enabled && r.expires_at > t.now && r.used < x.max_uses
            &&& out.0.clients.dom().contains(c.id) && out.0.clients[c.id] == c
            &&& forall|k: Seq<char>| k != c.id ==> #[trigger] out.0.clients[k] == t.clients[k]
            &&& c.enabled && !c.service
            &&& c.redirect_uris == q.redirect_uris
            &&& q.client_name is Some ==> Some(c.name) == q.client_name
            &&& q.scope is None ==> c.scopes == x.scopes
            &&& q.scope is Some ==> c.scopes.subset_of(x.scopes)
            &&& c.allowed_groups == x.allowed_groups && c.require_mfa == x.require_mfa
            &&& q.grant_types is Some ==> Some(c.settings.allowed_grants) == q.grant_types
            &&& q.grant_types is None ==> c.settings.allowed_grants == set!["authorization_code"@]
            &&& c.settings.jwks == q.jwks
            &&& x.auth_methods.contains(method)
            &&& (method == "client_secret_basic"@ || method == "client_secret_post"@) <==> secret
                is Some
            &&& secret is Some ==> c.secret_hash == Some(digest_of(secret->0))
            &&& secret is None ==> c.secret_hash is None
            &&& out.0.audit.last().action == "client.register"@
        }),
{
}

/// Who holds a template's credential can register with it until it expires, is used up or is revoked.
pub proof fn standing_templates_register(
    t: TxModel,
    token: Seq<char>,
    q: RegistrationRequestModel,
    v: RegistrationReviewModel,
    rules: RulesModel,
)
    requires
        t.registration_tokens.dom().contains(digest_of(token)),
        t.registrations.dom().contains(t.registration_tokens[digest_of(token)]),
        v.agent is None && v.id_ok && v.name_ok && v.client_ok,
        q.scope is None,
        ({
            let r = t.registrations[t.registration_tokens[digest_of(token)]];
            &&& r.creator_agent
            &&& request_check(q, r.template) is Ok
            &&& provider_check(built(t, q, r.template).1, rules) is Ok
        }),
    ensures
        registered(t, token, q, v, rules).1 is Ok <==> {
            let r = t.registrations[t.registration_tokens[digest_of(token)]];
            r.enabled && r.expires_at > t.now && r.used < r.template.max_uses
        },
{
}

/// A template is kept with a new credential, for the time that it says, unused.
pub proof fn templates_are_kept_with_their_credential(
    t: TxModel,
    actor: PrincipalModel,
    x: RegistrationTemplateModel,
    rules: RulesModel,
)
    requires
        template_created(t, actor, x, None, rules).1 is Ok,
        t.now + x.ttl <= u64::MAX,
    ensures
        ({
            let out = template_created(t, actor, x, None, rules);
            let r = (out.1->Ok_0).0;
            let credential = (out.1->Ok_0).1;
            &&& x.ttl >= 60 && x.ttl <= 30 * 86400
            &&& x.max_uses >= 1 && x.max_uses <= 1000
            &&& !t.registrations.dom().contains(x.id)
            &&& r.template == x && r.used == 0 && r.enabled
            &&& r.token_hash == digest_of(credential)
            &&& r.expires_at == t.now + x.ttl
            &&& r.created_by == actor.id && r.creator_agent == actor.agent
            &&& out.0.registrations == t.registrations.insert(x.id, r)
            &&& out.0.registration_tokens[digest_of(credential)] == x.id
        }),
{
}

/// A template lasts a minute to thirty days and registers one to a thousand clients, with addresses,
/// known grants and known methods; it hands on no trust and no consent.
pub proof fn templates_delegate_no_trust(x: RegistrationTemplateModel)
    requires
        template_check(x) is Ok,
    ensures
        60 <= x.ttl <= 2_592_000,
        1 <= x.max_uses <= 1000,
        x.redirect_uris.len() > 0,
        x.auth_methods != Set::<Seq<char>>::empty(),
        x.grant_types != Set::<Seq<char>>::empty(),
        x.settings.exchange is None,
        x.settings.exchange_from == Set::<Seq<char>>::empty(),
        x.settings.machine_trust.len() == 0,
        x.settings.jwks is None,
        x.settings.token_endpoint_auth_method is None,
        !x.settings.implicit_consent,
{
}

/// A template stands on who made it: an agent that is still good for it, or an administrator who still
/// is one.
pub proof fn templates_stand_on_their_author(t: TxModel, r: InitialAccessModel, agent: Option<Failure>)
    ensures
        r.creator_agent ==> (registrar_check(t, r, agent) is Ok <==> agent is None),
        !r.creator_agent ==> (registrar_check(t, r, agent) is Ok <==> t.users.dom().contains(r.created_by)
            && t.users[r.created_by].enabled && t.users[r.created_by].admin),
{
}

} // verus!
