//! What a client registration may ask of the provider.
use crate::error::{Error, Failure, agrees, and_also, each, lemma_each_fails};
use crate::exchange::{ExchangePolicyModel, TOKEN_EXCHANGE};
use crate::jose::{ClientAuthMethod, JWT_GRANT, MachineTrustModel, jwks_check};
use crate::model::{Client, ClientModel, ProviderSettings, ProviderSettingsModel, is_confidential};
use crate::names::{Names, in_order};
use crate::oidc::DEVICE_GRANT;
use crate::outside::{UrlModel, UrlParts, form_pairs, pair_texts, parse_form, parse_url, url_of, url_without_port, without_port};
use crate::portal::{is_loopback, loopback};
use crate::radius::eap::CERTIFICATE_ACR;
use crate::resource::{resource_uri, uri_check, validate_uri};
use crate::rules::{Rules, RulesModel, names_check, rule_check};
use crate::text::{among, byte_count, byte_len, concat3, has_char, opt_is, opt_text, same, same_opt, texts};
use vstd::prelude::*;
use vstd::string::*;

verus! {

/// A scheme that a native application registers for itself.
pub open spec fn is_private_scheme(u: UrlModel) -> bool {
    &&& u.scheme != "http"@ && u.scheme != "https"@ && u.scheme != "file"@ && u.scheme != "data"@
        && u.scheme != "javascript"@
    &&& u.scheme.contains('.')
    &&& u.path.len() > 0
}

pub fn private_scheme(url: &UrlParts) -> (r: bool)
    ensures
        r == is_private_scheme(url@),
{
    let s = url.scheme.as_str();
    !(same(s, "http") || same(s, "https") || same(s, "file") || same(s, "data") || same(
        s,
        "javascript",
    )) && has_char(s, '.') && !url.path.as_str().is_empty()
}

/// HTTPS, or HTTP to this machine.
pub open spec fn is_secure(u: UrlModel) -> bool {
    u.scheme == "https"@ && u.host is Some || u.scheme == "http"@ && loopback(u.host)
}

pub fn secure_url(url: &UrlParts) -> (r: bool)
    ensures
        r == is_secure(url@),
{
    same(url.scheme.as_str(), "https") && url.host.is_some() || same(url.scheme.as_str(), "http")
        && is_loopback(&url.host)
}

/// A loopback redirect of a native application, which may use any port.
pub open spec fn any_port_redirect(value: Seq<char>) -> bool {
    match url_of(value) {
        None => false,
        Some(u) => u.scheme == "http"@ && (u.host == Some("127.0.0.1"@) || u.host == Some("[::1]"@))
            && u.username.len() == 0 && u.password is None && u.fragment is None,
    }
}

/// The redirect is registered as it stands, or but for its port where that is open.
pub open spec fn redirect_registered(c: ClientModel, value: Seq<char>) -> bool {
    c.redirect_uris.contains(value) || (c.settings.native && any_port_redirect(value) && exists|
        i: int,
    |
        0 <= i < c.redirect_uris.len() && url_without_port(#[trigger] c.redirect_uris[i]) is Some
            && url_without_port(c.redirect_uris[i]) == url_without_port(value))
}

pub fn redirect_matches(client: &Client, value: &str) -> (r: bool)
    ensures
        r == redirect_registered(client@, value@),
{
    if among(value, &client.redirect_uris) {
        return true;
    }
    if !client.settings.native {
        return false;
    }
    let open_port = match parse_url(value) {
        None => false,
        Some(u) => same(u.scheme.as_str(), "http") && (opt_is(&u.host, "127.0.0.1") || opt_is(
            &u.host,
            "[::1]",
        )) && u.username.as_str().is_empty() && u.password.is_none() && u.fragment.is_none(),
    };
    if !open_port {
        return false;
    }
    let requested = without_port(value);
    let ghost all = client@.redirect_uris;
    let mut i: usize = 0;
    while i < client.redirect_uris.len()
        invariant
            i <= client.redirect_uris.len(),
            all == texts(client.redirect_uris@),
            opt_text(requested) == url_without_port(value@),
            forall|j: int|
                0 <= j < i ==> !(url_without_port(#[trigger] all[j]) is Some && url_without_port(
                    all[j],
                ) == url_without_port(value@)),
            client@.redirect_uris == all,
            client@.settings.native,
            any_port_redirect(value@),
        decreases client.redirect_uris.len() - i,
    {
        let registered = without_port(client.redirect_uris[i].as_str());
        assert(all[i as int] == client.redirect_uris@[i as int]@);
        if registered.is_some() && same_opt(&registered, &requested) {
            return true;
        }
        i = i + 1;
    }
    false
}

pub open spec fn grant_check(c: ClientModel, grant: Seq<char>) -> Result<(), Failure> {
    if c.settings.allowed_grants.len() > 0 && !c.settings.allowed_grants.contains(grant) {
        Err(Failure::Oauth("unauthorized_client"@, "Grant type is disabled for this client"@))
    } else {
        Ok(())
    }
}

/// Refuses a grant type that the client has not listed; a client without a list allows all.
pub fn grant_allowed(client: &Client, grant: &str) -> (r: Result<(), Error>)
    ensures
        agrees(r, grant_check(client@, grant@)),
{
    if !client.settings.allowed_grants.is_empty() && !client.settings.allowed_grants.contains(grant) {
        return Err(Error::oauth("unauthorized_client", "Grant type is disabled for this client"));
    }
    Ok(())
}

/// The protocol profiles that are set each accept the client.
pub open spec fn profiles_check(c: ClientModel, rules: RulesModel) -> Result<(), Failure> {
    let s = c.settings;
    and_also(
        match s.app {
            Some(app) => crate::portal::settings_check(app, c),
            None => Ok(()),
        },
        and_also(
            if s.saml is Some {
                rule_check(rules, "saml"@)
            } else {
                Ok(())
            },
            and_also(
                match s.radius {
                    Some(radius) => crate::radius::settings_check(radius, c, rules),
                    None => Ok(()),
                },
                and_also(
                    match s.ldap {
                        Some(ldap) => crate::ldap_server::settings_check(ldap, c, rules),
                        None => Ok(()),
                    },
                    match s.proxy {
                        Some(proxy) => crate::outpost::settings_check(proxy, c, rules),
                        None => Ok(()),
                    },
                ),
            ),
        ),
    )
}

fn check_profiles(client: &Client, rules: &Rules) -> (r: Result<(), Error>)
    ensures
        agrees(r, profiles_check(client@, rules@)),
{
    let s = &client.settings;
    if let Some(app) = &s.app {
        if let Err(e) = app.validate(client) {
            return Err(e);
        }
    }
    if s.saml.is_some() {
        if let Err(e) = rules.check_rule("saml") {
            return Err(e);
        }
    }
    if let Some(radius) = &s.radius {
        if let Err(e) = radius.validate(client, rules) {
            return Err(e);
        }
    }
    if let Some(ldap) = &s.ldap {
        if let Err(e) = ldap.validate(client, rules) {
            return Err(e);
        }
    }
    if let Some(proxy) = &s.proxy {
        if let Err(e) = proxy.validate(client, rules) {
            return Err(e);
        }
    }
    Ok(())
}

/// A registered resource names a URI and some of the client's scopes.
pub open spec fn registered_resource_check(c: ClientModel, uri: Seq<char>) -> Result<(), Failure> {
    let scopes = c.settings.resources[uri];
    and_also(
        uri_check(uri),
        if scopes.len() == 0 || !scopes.subset_of(c.scopes) {
            Err(Failure::Bad("Resource scopes must be a nonempty subset of client scopes"@))
        } else {
            Ok(())
        },
    )
}

pub open spec fn registered_resource_rule(c: ClientModel) -> spec_fn(Seq<char>) -> Result<
    (),
    Failure,
> {
    |uri: Seq<char>| registered_resource_check(c, uri)
}

pub open spec fn resources_check(c: ClientModel) -> Result<(), Failure> {
    if c.settings.resources.dom().len() > 32 {
        Err(Failure::Bad("At most 32 resources may be registered"@))
    } else {
        each(in_order(c.settings.resources.dom()), registered_resource_rule(c))
    }
}

#[verifier::loop_isolation(false)]
fn check_resources(client: &Client) -> (r: Result<(), Error>)
    ensures
        agrees(r, resources_check(client@)),
{
    let uris = client.settings.resources.keys();
    if uris.len() > 32 {
        return Err(Error::bad("At most 32 resources may be registered"));
    }
    let ghost all = in_order(uris@);
    let ghost f = registered_resource_rule(client@);
    let n: usize = uris.len();
    let mut i: usize = 0;
    while i < n
        invariant
            i <= n,
            each(all.take(i as int), f) is Ok,
        decreases n - i,
    {
        let uri = uris.at(i);
        proof {
            assert(all.take(i + 1).drop_last() =~= all.take(i as int));
        }
        if let Err(e) = validate_uri(uri.as_str()) {
            proof {
                lemma_each_fails(all, f, i + 1);
            }
            return Err(e);
        }
        let sound = match client.settings.resources.get(uri.as_str()) {
            Some(scopes) => !scopes.is_empty() && scopes.is_subset(&client.scopes),
            None => false,
        };
        if !sound {
            proof {
                lemma_each_fails(all, f, i + 1);
            }
            return Err(Error::bad("Resource scopes must be a nonempty subset of client scopes"));
        }
        i = i + 1;
    }
    assert(all.take(i as int) =~= all);
    Ok(())
}

pub open spec fn sector_check(c: ClientModel) -> Result<(), Failure> {
    match c.settings.pairwise_sector {
        None => Ok(()),
        Some(sector) => match url_of("https://"@ + sector + "/"@) {
            None => Err(Failure::Bad("Invalid pairwise sector host"@)),
            Some(u) => if u.host != Some(sector) || byte_count(sector) > 253 || c.service {
                Err(
                    Failure::Bad(
                        "Pairwise sector must be a canonical host for an interactive client"@,
                    ),
                )
            } else {
                Ok(())
            },
        },
    }
}

fn check_sector(client: &Client) -> (r: Result<(), Error>)
    ensures
        agrees(r, sector_check(client@)),
{
    if let Some(sector) = &client.settings.pairwise_sector {
        let text = concat3("https://", sector.as_str(), "/");
        match parse_url(text.as_str()) {
            None => {
                return Err(Error::bad("Invalid pairwise sector host"));
            },
            Some(u) => {
                if !opt_is(&u.host, sector.as_str()) || byte_len(sector.as_str()) > 253
                    || client.service {
                    return Err(
                        Error::bad(
                            "Pairwise sector must be a canonical host for an interactive client",
                        ),
                    );
                }
            },
        }
    }
    Ok(())
}

/// A list of client names of at most 32 entries.
pub open spec fn bounded_names_check(
    names: Set<Seq<char>>,
    message: Seq<char>,
    rules: RulesModel,
) -> Result<(), Failure> {
    if names.len() > 32 {
        Err(Failure::Bad(message))
    } else {
        names_check(rules, in_order(names))
    }
}

fn check_bounded_names(names: &Names, message: &str, rules: &Rules) -> (r: Result<(), Error>)
    ensures
        agrees(r, bounded_names_check(names@, message@, rules@)),
{
    if names.len() > 32 {
        return Err(Error::bad(message));
    }
    rules.check_names(names)
}

pub open spec fn encryption_check(c: ClientModel, rules: RulesModel) -> Result<(), Failure> {
    let s = c.settings;
    and_also(
        if s.id_token_encryption is Some {
            rule_check(rules, "id_token_encryption"@)
        } else {
            Ok(())
        },
        and_also(
            if s.access_token_encryption is Some {
                rule_check(rules, "access_token_encryption"@)
            } else {
                Ok(())
            },
            and_also(
                if s.userinfo_encryption is Some {
                    rule_check(rules, "userinfo_encryption"@)
                } else {
                    Ok(())
                },
                if s.authorization_encryption is Some {
                    rule_check(rules, "authorization_encryption"@)
                } else {
                    Ok(())
                },
            ),
        ),
    )
}

fn check_encryption(client: &Client, rules: &Rules) -> (r: Result<(), Error>)
    ensures
        agrees(r, encryption_check(client@, rules@)),
{
    let s = &client.settings;
    if s.id_token_encryption.is_some() {
        if let Err(e) = rules.check_rule("id_token_encryption") {
            return Err(e);
        }
    }
    if s.access_token_encryption.is_some() {
        if let Err(e) = rules.check_rule("access_token_encryption") {
            return Err(e);
        }
    }
    if s.userinfo_encryption.is_some() {
        if let Err(e) = rules.check_rule("userinfo_encryption") {
            return Err(e);
        }
    }
    if s.authorization_encryption.is_some() {
        if let Err(e) = rules.check_rule("authorization_encryption") {
            return Err(e);
        }
    }
    Ok(())
}

/// The assurance values that a client may ask for by default.
pub open spec fn assurance_check(c: ClientModel, rules: RulesModel) -> Result<(), Failure> {
    let v = c.settings.default_acr_values;
    if v.len() > 2 || exists|i: int|
        0 <= i < v.len() && !rules.acr_values.contains(#[trigger] v[i]) && v[i] != CERTIFICATE_ACR@ {
        Err(Failure::Bad("Unsupported default assurance value"@))
    } else {
        Ok(())
    }
}

#[verifier::loop_isolation(false)]
fn check_assurance(client: &Client, rules: &Rules) -> (r: Result<(), Error>)
    ensures
        agrees(r, assurance_check(client@, rules@)),
{
    let v = &client.settings.default_acr_values;
    if v.len() > 2 {
        return Err(Error::bad("Unsupported default assurance value"));
    }
    let ghost all = client@.settings.default_acr_values;
    let mut i: usize = 0;
    while i < v.len()
        invariant
            i <= v.len(),
            forall|j: int|
                0 <= j < i ==> rules@.acr_values.contains(#[trigger] all[j]) || all[j] == CERTIFICATE_ACR@,
        decreases v.len() - i,
    {
        assert(all[i as int] == v@[i as int]@);
        if !rules.acr_values.contains(v[i].as_str()) && !same(v[i].as_str(), CERTIFICATE_ACR) {
            return Err(Error::bad("Unsupported default assurance value"));
        }
        i = i + 1;
    }
    Ok(())
}

/// How the client authenticates fits the credentials that it has.
pub open spec fn authentication_check(c: ClientModel) -> Result<(), Failure> {
    let s = c.settings;
    if s.require_signed_request && s.jwks is None {
        Err(Failure::Bad("Signed requests require pinned client public keys"@))
    } else {
        and_also(
            match s.token_endpoint_auth_method {
                Some(ClientAuthMethod::PrivateKeyJwt) => if c.secret_hash is Some {
                    Err(Failure::Bad("private_key_jwt clients cannot retain a shared secret"@))
                } else {
                    match s.jwks {
                        None => Err(
                            Failure::Bad("private_key_jwt requires pinned public keys"@),
                        ),
                        Some(jwks) => jwks_check(jwks),
                    }
                },
                Some(ClientAuthMethod::Public) => if c.secret_hash is Some || c.service {
                    Err(Failure::Bad("none authentication requires a public interactive client"@))
                } else {
                    Ok(())
                },
                Some(_) => if c.secret_hash is None {
                    Err(Failure::Bad("Secret authentication requires a confidential client"@))
                } else {
                    Ok(())
                },
                None => Ok(()),
            },
            and_also(
                match s.jwks {
                    Some(jwks) => jwks_check(jwks),
                    None => Ok(()),
                },
                if c.service && !is_confidential(c) {
                    Err(Failure::Bad("Service clients require confidential authentication"@))
                } else {
                    Ok(())
                },
            ),
        )
    }
}

fn check_authentication(client: &Client) -> (r: Result<(), Error>)
    ensures
        agrees(r, authentication_check(client@)),
{
    let s = &client.settings;
    if s.require_signed_request && s.jwks.is_none() {
        return Err(Error::bad("Signed requests require pinned client public keys"));
    }
    match s.token_endpoint_auth_method {
        Some(ClientAuthMethod::PrivateKeyJwt) => {
            if client.secret_hash.is_some() {
                return Err(Error::bad("private_key_jwt clients cannot retain a shared secret"));
            }
            match &s.jwks {
                None => {
                    return Err(Error::bad("private_key_jwt requires pinned public keys"));
                },
                Some(jwks) => {
                    if let Err(e) = jwks.validate() {
                        return Err(e);
                    }
                },
            }
        },
        Some(ClientAuthMethod::Public) => {
            if client.secret_hash.is_some() || client.service {
                return Err(Error::bad("none authentication requires a public interactive client"));
            }
        },
        Some(_) => {
            if client.secret_hash.is_none() {
                return Err(Error::bad("Secret authentication requires a confidential client"));
            }
        },
        None => {},
    }
    if let Some(jwks) = &s.jwks {
        if let Err(e) = jwks.validate() {
            return Err(e);
        }
    }
    if client.service && !client.confidential() {
        return Err(Error::bad("Service clients require confidential authentication"));
    }
    Ok(())
}

pub open spec fn trust_check(c: ClientModel, t: MachineTrustModel) -> Result<(), Failure> {
    if !c.service || t.issuer.len() == 0 || byte_count(t.issuer) > 2048 || t.subject.len() == 0
        || byte_count(t.subject) > 255 || t.scopes.len() == 0 || !t.scopes.subset_of(c.scopes) {
        Err(Failure::Bad("Invalid workload trust"@))
    } else {
        jwks_check(t.jwks)
    }
}

pub open spec fn trust_rule(c: ClientModel) -> spec_fn(MachineTrustModel) -> Result<(), Failure> {
    |t: MachineTrustModel| trust_check(c, t)
}

pub open spec fn trusts_check(c: ClientModel) -> Result<(), Failure> {
    if c.settings.machine_trust.len() > 16 {
        Err(Failure::Bad("At most 16 workload trusts are allowed"@))
    } else {
        each(c.settings.machine_trust, trust_rule(c))
    }
}

#[verifier::loop_isolation(false)]
fn check_trusts(client: &Client) -> (r: Result<(), Error>)
    ensures
        agrees(r, trusts_check(client@)),
{
    let list = &client.settings.machine_trust;
    if list.len() > 16 {
        return Err(Error::bad("At most 16 workload trusts are allowed"));
    }
    let ghost all = client@.settings.machine_trust;
    let ghost f = trust_rule(client@);
    let mut i: usize = 0;
    while i < list.len()
        invariant
            i <= list.len(),
            each(all.take(i as int), f) is Ok,
        decreases list.len() - i,
    {
        let t = &list[i];
        proof {
            assert(all[i as int] == list@[i as int]@);
            assert(all.take(i + 1).drop_last() =~= all.take(i as int));
            if each(all.take(i + 1), f) is Err {
                lemma_each_fails(all, f, i + 1);
            }
        }
        if !client.service || t.issuer.as_str().is_empty() || byte_len(t.issuer.as_str()) > 2048
            || t.subject.as_str().is_empty() || byte_len(t.subject.as_str()) > 255
            || t.scopes.is_empty() || !t.scopes.is_subset(&client.scopes) {
            return Err(Error::bad("Invalid workload trust"));
        }
        if let Err(e) = t.jwks.validate() {
            return Err(e);
        }
        i = i + 1;
    }
    assert(all.take(i as int) =~= all);
    Ok(())
}

pub open spec fn exchange_check(c: ClientModel, rules: RulesModel) -> Result<(), Failure> {
    and_also(
        match c.settings.exchange {
            None => Ok(()),
            Some(p) => if !is_confidential(c) || p.subject_clients.len() == 0
                || p.target_clients.len() == 0 || p.scopes.len() == 0 || !p.scopes.subset_of(c.scopes)
                || !(p.allow_delegation || p.allow_impersonation) || p.subject_clients.len() > 32
                || p.target_clients.len() > 32 {
                Err(
                    Failure::Bad(
                        "Exchange requires bounded client and scope trust and a confidential requester"@,
                    ),
                )
            } else {
                and_also(
                    names_check(rules, in_order(p.subject_clients)),
                    names_check(rules, in_order(p.target_clients)),
                )
            },
        },
        bounded_names_check(
            c.settings.exchange_from,
            "At most 32 exchange requesters are allowed"@,
            rules,
        ),
    )
}

fn check_exchange(client: &Client, rules: &Rules) -> (r: Result<(), Error>)
    ensures
        agrees(r, exchange_check(client@, rules@)),
{
    if let Some(p) = &client.settings.exchange {
        if !client.confidential() || p.subject_clients.is_empty() || p.target_clients.is_empty()
            || p.scopes.is_empty() || !p.scopes.is_subset(&client.scopes) || !(p.allow_delegation
            || p.allow_impersonation) || p.subject_clients.len() > 32 || p.target_clients.len() > 32 {
            return Err(
                Error::bad(
                    "Exchange requires bounded client and scope trust and a confidential requester",
                ),
            );
        }
        if let Err(e) = rules.check_names(&p.subject_clients) {
            return Err(e);
        }
        if let Err(e) = rules.check_names(&p.target_clients) {
            return Err(e);
        }
    }
    check_bounded_names(
        &client.settings.exchange_from,
        "At most 32 exchange requesters are allowed",
        rules,
    )
}

/// A grant type that the client's kind can use.
pub open spec fn supported_grant(c: ClientModel, grant: Seq<char>) -> bool {
    if grant == TOKEN_EXCHANGE@ {
        c.settings.exchange is Some
    } else if grant == JWT_GRANT@ {
        c.service && c.settings.machine_trust.len() > 0
    } else if c.service {
        grant == "client_credentials"@
    } else {
        grant == "authorization_code"@ || grant == "refresh_token"@ || grant == DEVICE_GRANT@
    }
}

pub open spec fn kind_check(c: ClientModel) -> Result<(), Failure> {
    let s = c.settings;
    if c.service && (s.policy.rules.len() > 0 || s.claim_mappings.len() > 0 || s.groups_in_profile
        || s.claims_in_access_token || s.userinfo_only) {
        Err(
            Failure::Bad("Service clients cannot attach end-user policy or identity claim mappings"@),
        )
    } else if s.native && c.service {
        Err(Failure::Bad("Service clients cannot be native applications"@))
    } else if exists|g: Seq<char>| #[trigger] s.allowed_grants.contains(g) && !supported_grant(c, g) {
        Err(Failure::Bad("Unsupported grant for this client type"@))
    } else {
        Ok(())
    }
}

#[verifier::loop_isolation(false)]
fn check_kind(client: &Client) -> (r: Result<(), Error>)
    ensures
        agrees(r, kind_check(client@)),
{
    let s = &client.settings;
    if client.service && (s.policy.rules.len() > 0 || s.claim_mappings.len() > 0
        || s.groups_in_profile || s.claims_in_access_token || s.userinfo_only) {
        return Err(
            Error::bad("Service clients cannot attach end-user policy or identity claim mappings"),
        );
    }
    if s.native && client.service {
        return Err(Error::bad("Service clients cannot be native applications"));
    }
    let ghost all = in_order(s.allowed_grants@);
    s.allowed_grants.listing();
    let n: usize = s.allowed_grants.len();
    let mut i: usize = 0;
    while i < n
        invariant
            i <= n,
            forall|j: int| 0 <= j < i ==> supported_grant(client@, #[trigger] all[j]),
        decreases n - i,
    {
        let grant = s.allowed_grants.at(i).as_str();
        let supported = if same(grant, TOKEN_EXCHANGE) {
            s.exchange.is_some()
        } else if same(grant, JWT_GRANT) {
            client.service && s.machine_trust.len() > 0
        } else if client.service {
            same(grant, "client_credentials")
        } else {
            same(grant, "authorization_code") || same(grant, "refresh_token") || same(
                grant,
                DEVICE_GRANT,
            )
        };
        if !supported {
            assert(client@.settings.allowed_grants.contains(grant@));
            return Err(Error::bad("Unsupported grant for this client type"));
        }
        i = i + 1;
    }
    proof {
        assert forall|g: Seq<char>| #[trigger]
            client@.settings.allowed_grants.contains(g) implies supported_grant(client@, g) by {
            let j = all.index_of(g);
            assert(all[j] == g);
        }
    }
    Ok(())
}

/// A lifetime is unset or within its range.
pub open spec fn ttl_ok(ttl: Option<u64>, min: u64, max: u64) -> bool {
    ttl matches Some(v) ==> min <= v <= max
}

pub open spec fn lifetimes_check(s: ProviderSettingsModel) -> Result<(), Failure> {
    if ttl_ok(s.access_token_ttl, 30, 3600) && ttl_ok(s.refresh_token_ttl, 300, 7_776_000) && ttl_ok(
        s.code_ttl,
        30,
        600,
    ) && ttl_ok(s.device_ttl, 60, 1800) {
        Ok(())
    } else {
        Err(Failure::Bad("Provider token lifetime is outside its supported range"@))
    }
}

fn ttl_within(ttl: Option<u64>, min: u64, max: u64) -> (r: bool)
    ensures
        r == ttl_ok(ttl, min, max),
{
    match ttl {
        Some(v) => min <= v && v <= max,
        None => true,
    }
}

pub open spec fn origin_check(origin: Seq<char>) -> Result<(), Failure> {
    match url_of(origin) {
        None => Err(Failure::Bad("Invalid CORS origin"@)),
        Some(u) => if u.origin != origin || !is_secure(u) {
            Err(Failure::Bad("CORS origins must be exact HTTPS origins (HTTP loopback allowed)"@))
        } else {
            Ok(())
        },
    }
}

pub open spec fn origin_rule() -> spec_fn(Seq<char>) -> Result<(), Failure> {
    |o: Seq<char>| origin_check(o)
}

#[verifier::loop_isolation(false)]
fn check_origins(origins: &Names) -> (r: Result<(), Error>)
    ensures
        agrees(r, each(in_order(origins@), origin_rule())),
{
    let ghost all = in_order(origins@);
    let ghost f = origin_rule();
    let n: usize = origins.len();
    let mut i: usize = 0;
    while i < n
        invariant
            i <= n,
            each(all.take(i as int), f) is Ok,
        decreases n - i,
    {
        let origin = origins.at(i);
        proof {
            assert(all.take(i + 1).drop_last() =~= all.take(i as int));
            if each(all.take(i + 1), f) is Err {
                lemma_each_fails(all, f, i + 1);
            }
        }
        match parse_url(origin.as_str()) {
            None => {
                return Err(Error::bad("Invalid CORS origin"));
            },
            Some(u) => {
                if !same(u.origin.as_str(), origin.as_str()) || !secure_url(&u) {
                    return Err(
                        Error::bad(
                            "CORS origins must be exact HTTPS origins (HTTP loopback allowed)",
                        ),
                    );
                }
            },
        }
        i = i + 1;
    }
    assert(all.take(i as int) =~= all);
    Ok(())
}

/// The pairs name a parameter that the provider itself appends.
pub open spec fn reserved_pairs(pairs: Seq<(Seq<char>, Seq<char>)>) -> bool {
    exists|i: int|
        0 <= i < pairs.len() && ((#[trigger] pairs[i]).0 == "iss"@ || pairs[i].0 == "sid"@ || pairs[i].0
            == "state"@)
}

/// The query names a parameter that the provider itself appends.
pub open spec fn reserved_query(query: Option<Seq<char>>) -> bool {
    reserved_pairs(
        form_pairs(
            match query {
                Some(q) => q,
                None => ""@,
            },
        ),
    )
}

fn has_reserved_query(query: &Option<String>) -> (r: bool)
    ensures
        r == reserved_query(opt_text(*query)),
{
    let text = match query {
        Some(q) => q.as_str(),
        None => "",
    };
    let pairs = parse_form(text);
    let ghost all = pair_texts(pairs@);
    let mut i: usize = 0;
    while i < pairs.len()
        invariant
            i <= pairs.len(),
            pair_texts(pairs@) == all,
            reserved_query(opt_text(*query)) == reserved_pairs(all),
            forall|j: int|
                0 <= j < i ==> !((#[trigger] all[j]).0 == "iss"@ || all[j].0 == "sid"@ || all[j].0
                    == "state"@),
        decreases pairs.len() - i,
    {
        assert(all[i as int] == (pairs@[i as int].0@, pairs@[i as int].1@));
        let key = pairs[i].0.as_str();
        if same(key, "iss") || same(key, "sid") || same(key, "state") {
            return true;
        }
        i = i + 1;
    }
    false
}

pub open spec fn logout_url_check(uri: Seq<char>) -> Result<(), Failure> {
    match url_of(uri) {
        None => Err(Failure::Bad("Invalid logout URL"@)),
        Some(u) => if !is_secure(u) || u.username.len() > 0 || u.password is Some || u.fragment is Some
            || uri.contains('*') || reserved_query(u.query) {
            Err(Failure::Bad("Logout URLs must be exact HTTPS URLs (HTTP loopback allowed)"@))
        } else {
            Ok(())
        },
    }
}

pub open spec fn logout_url_rule() -> spec_fn(Seq<char>) -> Result<(), Failure> {
    |u: Seq<char>| logout_url_check(u)
}

fn check_logout_url(uri: &str) -> (r: Result<(), Error>)
    ensures
        agrees(r, logout_url_check(uri@)),
{
    match parse_url(uri) {
        None => Err(Error::bad("Invalid logout URL")),
        Some(u) => {
            if !secure_url(&u) || !u.username.as_str().is_empty() || u.password.is_some()
                || u.fragment.is_some() || has_char(uri, '*') || has_reserved_query(&u.query) {
                Err(Error::bad("Logout URLs must be exact HTTPS URLs (HTTP loopback allowed)"))
            } else {
                Ok(())
            }
        },
    }
}

pub open spec fn logout_urls_check(s: ProviderSettingsModel) -> Result<(), Failure> {
    and_also(
        each(s.post_logout_redirect_uris, logout_url_rule()),
        and_also(
            match s.backchannel_logout_uri {
                Some(u) => logout_url_check(u),
                None => Ok(()),
            },
            match s.frontchannel_logout_uri {
                Some(u) => logout_url_check(u),
                None => Ok(()),
            },
        ),
    )
}

#[verifier::loop_isolation(false)]
fn check_logout_urls(s: &ProviderSettings) -> (r: Result<(), Error>)
    ensures
        agrees(r, logout_urls_check(s@)),
{
    let ghost all = s@.post_logout_redirect_uris;
    let ghost f = logout_url_rule();
    let list = &s.post_logout_redirect_uris;
    let mut i: usize = 0;
    while i < list.len()
        invariant
            i <= list.len(),
            each(all.take(i as int), f) is Ok,
        decreases list.len() - i,
    {
        proof {
            assert(all[i as int] == list@[i as int]@);
            assert(all.take(i + 1).drop_last() =~= all.take(i as int));
            if each(all.take(i + 1), f) is Err {
                lemma_each_fails(all, f, i + 1);
            }
        }
        if let Err(e) = check_logout_url(list[i].as_str()) {
            return Err(e);
        }
        i = i + 1;
    }
    assert(all.take(i as int) =~= all);
    if let Some(u) = &s.backchannel_logout_uri {
        if let Err(e) = check_logout_url(u.as_str()) {
            return Err(e);
        }
    }
    if let Some(u) = &s.frontchannel_logout_uri {
        if let Err(e) = check_logout_url(u.as_str()) {
            return Err(e);
        }
    }
    Ok(())
}

/// The checks of a registration, in the order in which the first failure is reported.
pub open spec fn provider_check(c: ClientModel, rules: RulesModel) -> Result<(), Failure> {
    and_also(
        profiles_check(c, rules),
        and_also(
            resources_check(c),
            and_also(
                sector_check(c),
                and_also(
                    bounded_names_check(
                        c.settings.token_managers,
                        "At most 32 token managers are allowed"@,
                        rules,
                    ),
                    and_also(
                        encryption_check(c, rules),
                        and_also(
                            assurance_check(c, rules),
                            and_also(
                                authentication_check(c),
                                and_also(
                                    trusts_check(c),
                                    and_also(
                                        exchange_check(c, rules),
                                        and_also(
                                            kind_check(c),
                                            and_also(
                                                lifetimes_check(c.settings),
                                                and_also(
                                                    each(in_order(c.settings.origins), origin_rule()),
                                                    logout_urls_check(c.settings),
                                                ),
                                            ),
                                        ),
                                    ),
                                ),
                            ),
                        ),
                    ),
                ),
            ),
        ),
    )
}

/// Accepts a client registration that every profile, credential and lifetime rule accepts.
pub fn validate_settings(client: &Client, rules: &Rules) -> (r: Result<(), Error>)
    ensures
        agrees(r, provider_check(client@, rules@)),
{
    let s = &client.settings;
    if let Err(e) = check_profiles(client, rules) {
        return Err(e);
    }
    if let Err(e) = check_resources(client) {
        return Err(e);
    }
    if let Err(e) = check_sector(client) {
        return Err(e);
    }
    if let Err(e) = check_bounded_names(
        &s.token_managers,
        "At most 32 token managers are allowed",
        rules,
    ) {
        return Err(e);
    }
    if let Err(e) = check_encryption(client, rules) {
        return Err(e);
    }
    if let Err(e) = check_assurance(client, rules) {
        return Err(e);
    }
    if let Err(e) = check_authentication(client) {
        return Err(e);
    }
    if let Err(e) = check_trusts(client) {
        return Err(e);
    }
    if let Err(e) = check_exchange(client, rules) {
        return Err(e);
    }
    if let Err(e) = check_kind(client) {
        return Err(e);
    }
    if !(ttl_within(s.access_token_ttl, 30, 3600) && ttl_within(s.refresh_token_ttl, 300, 7_776_000)
        && ttl_within(s.code_ttl, 30, 600) && ttl_within(s.device_ttl, 60, 1800)) {
        return Err(Error::bad("Provider token lifetime is outside its supported range"));
    }
    if let Err(e) = check_origins(&s.origins) {
        return Err(e);
    }
    check_logout_urls(s)
}

/// An address is a client's where the client registered it as it is; a native application may in
/// addition listen at any port of its loopback addresses.
pub proof fn addresses_are_registered_exactly(c: ClientModel, value: Seq<char>)
    ensures
        c.redirect_uris.contains(value) ==> redirect_registered(c, value),
        !c.settings.native && !c.redirect_uris.contains(value) ==> !redirect_registered(c, value),
        redirect_registered(c, value) && !c.redirect_uris.contains(value) ==> (url_of(value) matches Some(
            u,
        ) && u.scheme == "http"@ && (u.host == Some("127.0.0.1"@) || u.host == Some("[::1]"@))),
{
}

/// A client may use every grant, or those that it is limited to.
pub proof fn grants_are_limited_where_they_are_named(c: ClientModel, grant: Seq<char>)
    requires
        c.settings.allowed_grants.finite(),
    ensures
        grant_check(c, grant) is Ok <==> c.settings.allowed_grants == Set::<Seq<char>>::empty()
            || c.settings.allowed_grants.contains(grant),
{
    if c.settings.allowed_grants.len() == 0 {
        assert(c.settings.allowed_grants =~= Set::<Seq<char>>::empty());
    }
}

/// The lifetimes that a client may have: an access token half a minute to an hour, a refresh token five
/// minutes to ninety days, a code half a minute to ten minutes, a device code one minute to half an hour.
pub proof fn lifetimes_are_bounded(c: ClientModel, rules: RulesModel)
    requires
        provider_check(c, rules) is Ok,
    ensures
        c.settings.access_token_ttl matches Some(n) ==> 30 <= n <= 3600,
        c.settings.refresh_token_ttl matches Some(n) ==> 300 <= n <= 90 * 86400,
        c.settings.code_ttl matches Some(n) ==> 30 <= n <= 600,
        c.settings.device_ttl matches Some(n) ==> 60 <= n <= 1800,
        c.service ==> is_confidential(c) && !c.settings.native,
        c.settings.token_endpoint_auth_method == Some(ClientAuthMethod::PrivateKeyJwt)
            ==> c.secret_hash is None && c.settings.jwks is Some,
        c.settings.token_endpoint_auth_method == Some(ClientAuthMethod::Public) ==> c.secret_hash is None
            && !c.service,
        c.settings.require_signed_request ==> c.settings.jwks is Some,
        forall|g: Seq<char>| #[trigger]
            c.settings.allowed_grants.contains(g) ==> supported_grant(c, g),
        c.settings.backchannel_logout_uri matches Some(u) ==> logout_url_check(u) is Ok,
{
}

/// A logout address is an https address without credentials, fragment or wildcard.
pub proof fn logout_addresses_are_exact(uri: Seq<char>)
    requires
        logout_url_check(uri) is Ok,
    ensures
        url_of(uri) matches Some(u) && (u.scheme == "https"@ || u.scheme == "http"@) && u.host is Some
            && u.username.len() == 0 && u.password is None && u.fragment is None,
        !uri.contains('*'),
{
}

/// Each kind of client has grants of its own.
pub proof fn grants_fit_the_kind_of_client(c: ClientModel, grant: Seq<char>)
    requires
        grant != "urn:ietf:params:oauth:grant-type:token-exchange"@,
        grant != "urn:ietf:params:oauth:grant-type:jwt-bearer"@,
    ensures
        c.service ==> (supported_grant(c, grant) <==> grant == "client_credentials"@),
        !c.service ==> (supported_grant(c, grant) <==> grant == "authorization_code"@ || grant
            == "refresh_token"@ || grant == "urn:ietf:params:oauth:grant-type:device_code"@),
{
}

/// A client authenticates in the way that it is registered for: with a key alone, with nothing if it
/// is public and interactive, or with its secret. A service always authenticates.
pub proof fn clients_have_the_credential_of_their_method(c: ClientModel)
    requires
        authentication_check(c) is Ok,
    ensures
        c.settings.require_signed_request ==> c.settings.jwks is Some,
        c.settings.token_endpoint_auth_method == Some(ClientAuthMethod::PrivateKeyJwt) ==> c.secret_hash is None
            && c.settings.jwks is Some,
        c.settings.token_endpoint_auth_method == Some(ClientAuthMethod::Public) ==> c.secret_hash is None
            && !c.service,
        c.settings.token_endpoint_auth_method == Some(ClientAuthMethod::ClientSecretPost)
            || c.settings.token_endpoint_auth_method == Some(ClientAuthMethod::ClientSecretBasic)
            ==> c.secret_hash is Some,
        c.service ==> c.secret_hash is Some || c.settings.token_endpoint_auth_method == Some(
            ClientAuthMethod::PrivateKeyJwt,
        ),
        c.settings.jwks matches Some(k) ==> jwks_check(k) is Ok,
{
}

/// A client with a secret and no other demand is well registered, and so is a public one that is
/// interactive.
pub proof fn plain_clients_authenticate(c: ClientModel)
    requires
        !c.settings.require_signed_request,
        c.settings.jwks is None,
        c.settings.token_endpoint_auth_method != Some(ClientAuthMethod::PrivateKeyJwt),
        c.secret_hash is Some ==> c.settings.token_endpoint_auth_method != Some(ClientAuthMethod::Public),
        c.secret_hash is None ==> !c.service && (c.settings.token_endpoint_auth_method is None
            || c.settings.token_endpoint_auth_method == Some(ClientAuthMethod::Public)),
    ensures
        authentication_check(c) is Ok,
{
}

/// A client that may exchange tokens keeps a credential and names whom it may act on and for, at most
/// thirty-two each, for scopes of its own and in at least one way.
pub proof fn exchanging_clients_name_their_partners(c: ClientModel, p: ExchangePolicyModel, rules: RulesModel)
    requires
        c.settings.exchange == Some(p),
        exchange_check(c, rules) is Ok,
    ensures
        is_confidential(c),
        1 <= p.subject_clients.len() <= 32,
        1 <= p.target_clients.len() <= 32,
        p.scopes.len() > 0,
        p.scopes.subset_of(c.scopes),
        p.allow_delegation || p.allow_impersonation,
        names_check(rules, in_order(p.subject_clients)) is Ok,
        names_check(rules, in_order(p.target_clients)) is Ok,
{
}

/// What a client is besides is checked as well: its entry in the portal, and its radius, directory and
/// proxy settings.
pub proof fn every_profile_is_checked(c: ClientModel, rules: RulesModel)
    ensures
        profiles_check(c, rules) is Ok <==> {
            &&& c.settings.app matches Some(x) ==> crate::portal::settings_check(x, c) is Ok
            &&& c.settings.saml is Some ==> !rules.refused.contains("saml"@)
            &&& c.settings.radius matches Some(x) ==> crate::radius::settings_check(x, c, rules) is Ok
            &&& c.settings.ldap matches Some(x) ==> crate::ldap_server::settings_check(x, c, rules) is Ok
            &&& c.settings.proxy matches Some(x) ==> crate::outpost::settings_check(x, c, rules) is Ok
        },
        encryption_check(c, rules) is Ok <==> {
            &&& c.settings.id_token_encryption is Some ==> !rules.refused.contains("id_token_encryption"@)
            &&& c.settings.access_token_encryption is Some ==> !rules.refused.contains(
                "access_token_encryption"@,
            )
            &&& c.settings.userinfo_encryption is Some ==> !rules.refused.contains("userinfo_encryption"@)
            &&& c.settings.authorization_encryption is Some ==> !rules.refused.contains(
                "authorization_encryption"@,
            )
        },
{
}

/// A private scheme is a dotted name of its own with a path behind it, never one that a browser knows.
pub proof fn private_schemes_are_dotted(u: UrlModel)
    ensures
        is_private_scheme(u) ==> u.scheme.contains('.') && u.path.len() > 0,
        u.scheme == "http"@ || u.scheme == "https"@ || u.scheme == "file"@ || u.scheme == "data"@ || u.scheme
            == "javascript"@ ==> !is_private_scheme(u),
        u.scheme.contains('.') && u.path.len() > 0 ==> is_private_scheme(u),
{
    reveal_strlit("http");
    reveal_strlit("https");
    reveal_strlit("file");
    reveal_strlit("data");
    reveal_strlit("javascript");
}

/// A service has no users to make rules about and is no application on a device; a client uses grants
/// of its kind.
pub proof fn services_have_no_users(c: ClientModel)
    ensures
        kind_check(c) is Ok ==> {
            &&& c.service ==> c.settings.policy.rules.len() == 0 && c.settings.claim_mappings.len() == 0
                && !c.settings.groups_in_profile && !c.settings.claims_in_access_token
                && !c.settings.userinfo_only && !c.settings.native
            &&& forall|g: Seq<char>| #[trigger]
                c.settings.allowed_grants.contains(g) ==> supported_grant(c, g)
        },
        !c.service && (forall|g: Seq<char>| #[trigger]
            c.settings.allowed_grants.contains(g) ==> supported_grant(c, g)) ==> kind_check(c) is Ok,
{
}

/// A client has at most sixteen trusts and thirty-two resources, and each of them is checked.
pub proof fn trusts_are_few_and_checked(c: ClientModel, i: int)
    ensures
        trusts_check(c) is Ok ==> c.settings.machine_trust.len() <= 16,
        trusts_check(c) is Ok && 0 <= i < c.settings.machine_trust.len() ==> trust_rule(c)(
            c.settings.machine_trust[i],
        ) is Ok,
        resources_check(c) is Ok ==> c.settings.resources.dom().len() <= 32,
        resources_check(c) is Ok && 0 <= i < in_order(c.settings.resources.dom()).len()
            ==> registered_resource_rule(c)(in_order(c.settings.resources.dom())[i]) is Ok,
        logout_urls_check(c.settings) is Ok && 0 <= i < c.settings.post_logout_redirect_uris.len()
            ==> logout_url_check(c.settings.post_logout_redirect_uris[i]) is Ok,
        logout_urls_check(c.settings) is Ok ==> (c.settings.backchannel_logout_uri matches Some(u)
            ==> logout_url_check(u) is Ok) && (c.settings.frontchannel_logout_uri matches Some(u)
            ==> logout_url_check(u) is Ok),
{
    if 0 <= i < c.settings.machine_trust.len() {
        lemma_each_passes(c.settings.machine_trust, trust_rule(c), i);
    }
    if 0 <= i < in_order(c.settings.resources.dom()).len() {
        lemma_each_passes(in_order(c.settings.resources.dom()), registered_resource_rule(c), i);
    }
    if 0 <= i < c.settings.post_logout_redirect_uris.len() {
        lemma_each_passes(c.settings.post_logout_redirect_uris, logout_url_rule(), i);
    }
}

proof fn lemma_each_passes<T>(s: Seq<T>, f: spec_fn(T) -> Result<(), Failure>, i: int)
    requires
        0 <= i < s.len(),
    ensures
        each(s, f) is Ok ==> f(s[i]) is Ok,
    decreases s.len(),
{
    if i < s.len() - 1 {
        lemma_each_passes(s.drop_last(), f, i);
        assert(s.drop_last()[i] == s[i]);
    } else {
        assert(s.last() == s[i]);
    }
}

/// A workload is trusted by a service, under an issuer and a subject of bounded length, for scopes that
/// the service has, with keys that are fit.
pub proof fn workload_trusts_are_bounded(c: ClientModel, t: MachineTrustModel)
    ensures
        trust_check(c, t) is Ok <==> {
            &&& c.service
            &&& 0 < t.issuer.len() && byte_count(t.issuer) <= 2048
            &&& 0 < t.subject.len() && byte_count(t.subject) <= 255
            &&& t.scopes.len() != 0
            &&& t.scopes.subset_of(c.scopes)
            &&& jwks_check(t.jwks) is Ok
        },
        trust_rule(c)(t) == trust_check(c, t),
{
}

/// Origins are exact and encrypted or local; sectors are canonical hosts of interactive clients; defaults
/// of assurance are known, at most two; resources have scopes of their client.
pub proof fn settings_are_exact(c: ClientModel, origin: Seq<char>, sector: Seq<char>, uri: Seq<char>, rules: RulesModel)
    ensures
        origin_check(origin) is Ok <==> url_of(origin) is Some && (url_of(origin)->0).origin == origin && is_secure(
            url_of(origin)->0,
        ),
        c.settings.pairwise_sector == Some(sector) ==> (sector_check(c) is Ok <==> (url_of(
            "https://"@ + sector + "/"@,
        ) is Some && (url_of("https://"@ + sector + "/"@)->0).host == Some(sector) && byte_count(sector) <= 253
            && !c.service)),
        c.settings.pairwise_sector is None ==> sector_check(c) is Ok,
        assurance_check(c, rules) is Ok <==> c.settings.default_acr_values.len() <= 2 && forall|i: int|
            0 <= i < c.settings.default_acr_values.len() ==> rules.acr_values.contains(
                #[trigger] c.settings.default_acr_values[i],
            ) || c.settings.default_acr_values[i] == CERTIFICATE_ACR@,
        registered_resource_check(c, uri) is Ok <==> resource_uri(uri) && c.settings.resources[uri].len() != 0
            && c.settings.resources[uri].subset_of(c.scopes),
{
}

/// A list of names is short, and each of them is good.
pub proof fn name_lists_are_bounded(names: Set<Seq<char>>, message: Seq<char>, rules: RulesModel)
    ensures
        bounded_names_check(names, message, rules) is Ok <==> names.len() <= 32 && names_check(
            rules,
            in_order(names),
        ) is Ok,
        names.len() > 32 ==> bounded_names_check(names, message, rules) == Err::<(), Failure>(
            Failure::Bad(message),
        ),
{
}

} // verus!
