//! One explicitly registered resource audience per token.
use crate::error::{Error, Failure, agrees};
use crate::model::{Client, ClientModel, Grant, GrantModel};
use crate::names::Names;
use crate::outside::{parse_url, url_of};
use crate::text::{byte_count, byte_len, opt_str, same};
use vstd::prelude::*;
use vstd::string::*;

verus! {

/// The failure of a request for an unregistered resource.
pub open spec fn invalid_target() -> Failure {
    Failure::Oauth("invalid_target"@, "Use one registered resource authorized for this grant"@)
}

/// A resource identifier: a canonical absolute URL without credentials or fragment.
pub open spec fn resource_uri(value: Seq<char>) -> bool {
    match url_of(value) {
        None => false,
        Some(u) => byte_count(value) <= 2048 && u.fragment is None && u.username.len() == 0
            && u.password is None && u.text == value,
    }
}

pub open spec fn uri_check(value: Seq<char>) -> Result<(), Failure> {
    if resource_uri(value) {
        Ok(())
    } else {
        Err(invalid_target())
    }
}

/// The client registered the resource, for all of these scopes.
pub open spec fn resource_check(
    c: ClientModel,
    resource: Option<Seq<char>>,
    scopes: Set<Seq<char>>,
) -> Result<(), Failure> {
    match resource {
        None => Ok(()),
        Some(r) => if !resource_uri(r) || !c.settings.resources.dom().contains(r) {
            Err(invalid_target())
        } else if !scopes.subset_of(c.settings.resources[r]) {
            Err(
                Failure::Oauth("invalid_scope"@, "Scopes exceed the registered resource policy"@),
            )
        } else {
            Ok(())
        },
    }
}

pub fn invalid() -> (e: Error)
    ensures
        e@ == invalid_target(),
{
    Error::oauth("invalid_target", "Use one registered resource authorized for this grant")
}

pub fn validate_uri(value: &str) -> (r: Result<(), Error>)
    ensures
        agrees(r, uri_check(value@)),
{
    match parse_url(value) {
        None => Err(invalid()),
        Some(u) => {
            if byte_len(value) > 2048 || u.fragment.is_some() || !u.username.as_str().is_empty()
                || u.password.is_some() || !same(u.text.as_str(), value) {
                Err(invalid())
            } else {
                Ok(())
            }
        },
    }
}

pub fn validate(client: &Client, resource: Option<&str>, scopes: &Names) -> (r: Result<(), Error>)
    ensures
        agrees(r, resource_check(client@, opt_str(resource), scopes@)),
{
    match resource {
        None => Ok(()),
        Some(value) => {
            if let Err(e) = validate_uri(value) {
                return Err(e);
            }
            match client.settings.resources.get(value) {
                None => Err(invalid()),
                Some(allowed) => {
                    if scopes.is_subset(allowed) {
                        Ok(())
                    } else {
                        Err(
                            Error::oauth(
                                "invalid_scope",
                                "Scopes exceed the registered resource policy",
                            ),
                        )
                    }
                },
            }
        },
    }
}

/// What binding a grant to a resource answers: a request may only repeat what was authorized.
pub open spec fn bind_check(
    c: ClientModel,
    scopes: Set<Seq<char>>,
    requested: Option<Seq<char>>,
    authorized: Option<Seq<char>>,
) -> Result<(), Failure> {
    if requested is Some && requested != authorized {
        Err(invalid_target())
    } else {
        resource_check(c, authorized, scopes)
    }
}

/// Whether a grant with `scopes` can be bound to the authorized resource.
pub fn check_bind(
    client: &Client,
    scopes: &Names,
    requested: Option<&str>,
    authorized: Option<&str>,
) -> (r: Result<(), Error>)
    ensures
        agrees(r, bind_check(client@, scopes@, opt_str(requested), opt_str(authorized))),
{
    let differs = match (requested, authorized) {
        (Some(a), Some(b)) => !same(a, b),
        (Some(_), None) => true,
        _ => false,
    };
    if differs {
        return Err(invalid());
    }
    validate(client, authorized, scopes)
}

/// Binds `grant` to the authorized resource. A refused grant stays as it was.
pub fn bind(
    client: &Client,
    grant: &mut Grant,
    requested: Option<&str>,
    authorized: Option<&str>,
) -> (r: Result<(), Error>)
    ensures
        agrees(
            r,
            bind_check(client@, old(grant)@.scopes, opt_str(requested), opt_str(authorized)),
        ),
        final(grant)@ == if r is Ok {
            (GrantModel { resource: opt_str(authorized), ..old(grant)@ })
        } else {
            old(grant)@
        },
{
    if let Err(e) = check_bind(client, &grant.scopes, requested, authorized) {
        return Err(e);
    }
    grant.resource = match authorized {
        Some(a) => Some(a.to_owned()),
        None => None,
    };
    Ok(())
}

/// Whom a token is for: its resource, or the client itself.
pub open spec fn audience_of(g: GrantModel) -> Seq<char> {
    match g.resource {
        Some(r) => r,
        None => g.client_id,
    }
}

pub fn audience(grant: &Grant) -> (r: &str)
    ensures
        r@ == audience_of(grant@),
{
    match &grant.resource {
        Some(r) => r.as_str(),
        None => grant.client_id.as_str(),
    }
}

/// A grant that was bound carries scopes that its client registered for the audience.
pub proof fn bound_grant_is_registered(
    c: ClientModel,
    g: GrantModel,
    requested: Option<Seq<char>>,
    authorized: Option<Seq<char>>,
)
    requires
        bind_check(c, g.scopes, requested, authorized) is Ok,
        authorized is Some,
    ensures
        audience_of(GrantModel { resource: authorized, ..g }) == authorized->0,
        c.settings.resources.dom().contains(authorized->0),
        g.scopes.subset_of(c.settings.resources[authorized->0]),
        requested is None || requested == authorized,
{
}

/// A token can be bound to a resource that the client has registered, for scopes that the resource takes.
pub proof fn resources_take_registered_scopes(
    c: ClientModel,
    r: Seq<char>,
    scopes: Set<Seq<char>>,
    requested: Option<Seq<char>>,
)
    requires
        resource_uri(r),
    ensures
        resource_check(c, Some(r), scopes) is Ok <==> c.settings.resources.dom().contains(r)
            && scopes.subset_of(c.settings.resources[r]),
        resource_check(c, None, scopes) is Ok,
        bind_check(c, scopes, requested, Some(r)) is Ok <==> (requested is None || requested == Some(r))
            && c.settings.resources.dom().contains(r) && scopes.subset_of(c.settings.resources[r]),
        bind_check(c, scopes, Some(r), None) is Err,
{
}

/// A resource is a canonical address without credentials or a fragment, and is the audience of what is
/// granted for it; without one the client is.
pub proof fn resources_are_canonical_addresses(value: Seq<char>, g: GrantModel)
    ensures
        resource_uri(value) <==> {
            &&& url_of(value) is Some
            &&& (url_of(value)->0).text == value
            &&& byte_count(value) <= 2048
            &&& (url_of(value)->0).fragment is None
            &&& (url_of(value)->0).username.len() == 0
            &&& (url_of(value)->0).password is None
        },
        uri_check(value) is Ok <==> resource_uri(value),
        g.resource is None ==> audience_of(g) == g.client_id,
        g.resource is Some ==> audience_of(g) == g.resource->0,
{
}

} // verus!
