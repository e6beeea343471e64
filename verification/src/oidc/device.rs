//! Device authorization, refresh and machine grants.
use crate::engine::{ConfigModel, Core, audit, audited, drawn, extended, next_id};
use crate::error::{Error, Failure, agrees_with, fails};
use crate::exchange::chain_check;
use crate::jose::{AssertionClaims, AssertionClaimsModel};
use crate::model::{ClientModel, Device, DeviceModel, DeviceStatus, DeviceStatusModel, Grant, GrantModel, Session, SessionModel};
use crate::names::in_order;
use crate::oidc::{DEVICE_GRANT, Proof, ProofModel, Standing, StandingModel, TokenRequest, TokenRequestModel, active_client, authenticated, authenticates, check_client, claims_offered, client_failure, family_opened, family_revoked, fresh_grant, get_client, given, grant_failure, invalid_grant, local_check, note_client, opt_proof, proof_failure, proved, read_assertion, requested_scopes, required, revoke_family, scope_request, scope_words};
use crate::outpost::Pending;
use crate::outside::{digest, digest_of};
use crate::provider::{grant_allowed, grant_check};
use crate::resource::{bind_check, check_bind, resource_check};
use crate::store::{Tx, TxModel};
use crate::table::{Row, opt_view};
use crate::text::{byte_count, copy_opt, joined, same};
use vstd::prelude::*;
use vstd::string::*;

verus! {

/// A device authorization that waits for a decision.
pub open spec fn new_device(
    t: TxModel,
    c: ClientModel,
    scopes: Set<Seq<char>>,
    resource: Option<Seq<char>>,
    user_code_hash: Seq<char>,
) -> DeviceModel {
    DeviceModel {
        resource,
        client_id: c.id,
        user_code_hash,
        scopes,
        expires_at: extended(t.now, device_ttl(c)),
        last_poll_at: None,
        interval: 5,
        status: DeviceStatusModel::Pending,
    }
}

pub open spec fn device_ttl(c: ClientModel) -> u64 {
    match c.settings.device_ttl {
        Some(v) => v,
        None => 600,
    }
}

/// The scopes of a device request, or why it is refused.
pub open spec fn device_check(
    t: TxModel,
    r: TokenRequestModel,
    verified: Option<AssertionClaimsModel>,
) -> Result<Set<Seq<char>>, Failure> {
    if !authenticates(t, r, false, verified) {
        Err(client_failure())
    } else {
        let c = t.clients[r.client_id->0];
        let asked = requested_scopes(
            match r.scope {
                Some(s) => s,
                None => "openid"@,
            },
            c,
        );
        if grant_check(c, DEVICE_GRANT@) is Err {
            Err(grant_check(c, DEVICE_GRANT@)->Err_0)
        } else if c.service {
            Err(
                Failure::Oauth(
                    "unauthorized_client"@,
                    "Service clients cannot use device authorization"@,
                ),
            )
        } else if asked is Err {
            asked
        } else if !(asked->Ok_0).contains("openid"@) {
            Err(Failure::Oauth("invalid_scope"@, "openid is required"@))
        } else if resource_check(c, r.resource, asked->Ok_0) is Err {
            Err(resource_check(c, r.resource, asked->Ok_0)->Err_0)
        } else {
            asked
        }
    }
}

/// What a device is told: its secret code and how long it may poll.
pub struct DeviceReply {
    pub device_code: String,
    pub expires_in: u64,
    pub interval: u64,
}

/// What a [`DeviceReply`] holds.
pub struct DeviceReplyModel {
    pub device_code: Seq<char>,
    pub expires_in: u64,
    pub interval: u64,
}

impl View for DeviceReply {
    type V = DeviceReplyModel;

    open spec fn view(&self) -> DeviceReplyModel {
        DeviceReplyModel {
            device_code: self.device_code@,
            expires_in: self.expires_in,
            interval: self.interval,
        }
    }
}

impl Row for DeviceReply {
    fn dup(&self) -> (r: Self) {
        DeviceReply {
            device_code: self.device_code.clone(),
            expires_in: self.expires_in,
            interval: self.interval,
        }
    }
}

impl Core {
    /// Opens a device authorization. `user_code_hash` is the digest of the code that the user will
    /// type, which the caller drew so that no other request has it.
    pub fn device_start_with(
        &self,
        tx: &mut Tx,
        request: &TokenRequest,
        verified: &Option<AssertionClaims>,
        user_code_hash: &str,
    ) -> (r: Result<DeviceReply, Error>)
        ensures
            ({
                let out = device_begun(
                    old(tx)@,
                    request@,
                    opt_view(*verified),
                    user_code_hash@,
                );
                final(tx)@ == out.0 && agrees_with(r, out.1)
            }),
    {
        let client = match check_client(tx, request, false, verified) {
            Ok(c) => c,
            Err(e) => return Err(e),
        };
        if let Err(e) = grant_allowed(&client, DEVICE_GRANT) {
            return Err(e);
        }
        if client.service {
            return Err(
                Error::oauth(
                    "unauthorized_client",
                    "Service clients cannot use device authorization",
                ),
            );
        }
        let text = match &request.scope {
            Some(s) => s.as_str(),
            None => "openid",
        };
        let scopes = match scope_request(text, &client) {
            Ok(s) => s,
            Err(e) => return Err(e),
        };
        if !scopes.contains("openid") {
            return Err(Error::oauth("invalid_scope", "openid is required"));
        }
        let resource = match &request.resource {
            Some(x) => Some(x.as_str()),
            None => None,
        };
        if let Err(e) = crate::resource::validate(&client, resource, &scopes) {
            return Err(e);
        }
        note_client(tx, request, false, verified);
        let device_code = tx.random_token("ri_device_");
        let lifetime = match client.settings.device_ttl {
            Some(v) => v,
            None => 600,
        };
        let device = Device {
            resource: copy_opt(&request.resource),
            client_id: client.id,
            user_code_hash: user_code_hash.to_owned(),
            scopes,
            expires_at: tx.now.saturating_add(lifetime),
            last_poll_at: None,
            interval: 5,
            status: DeviceStatus::Pending,
        };
        let key = digest(device_code.as_str());
        tx.device_users.put(user_code_hash, key.clone());
        tx.devices.put(key.as_str(), device);
        Ok(DeviceReply { device_code, expires_in: lifetime, interval: 5 })
    }
}

/// The request that a user code stands for.
pub open spec fn device_for(t: TxModel, user_code_hash: Seq<char>) -> Result<
    (Seq<char>, DeviceModel),
    Failure,
> {
    if !t.device_users.dom().contains(user_code_hash) {
        Err(Failure::Missing("Device request not found"@))
    } else {
        let key = t.device_users[user_code_hash];
        if !t.devices.dom().contains(key) {
            Err(Failure::Missing("Device request not found"@))
        } else if t.devices[key].expires_at <= t.now {
            Err(Failure::Bad("Device request expired"@))
        } else {
            Ok((key, t.devices[key]))
        }
    }
}

pub fn lookup_device(tx: &Tx, user_code_hash: &str) -> (r: Result<(String, Device), Error>)
    ensures
        match device_for(tx@, user_code_hash@) {
            Ok(p) => r is Ok && (r->Ok_0).0@ == p.0 && (r->Ok_0).1@ == p.1,
            Err(f) => r is Err && r->Err_0@ == f,
        },
{
    let key = match tx.device_users.get(user_code_hash) {
        Some(k) => k.clone(),
        None => return Err(Error::missing("Device request not found")),
    };
    match tx.devices.get(key.as_str()) {
        None => Err(Error::missing("Device request not found")),
        Some(d) => {
            if d.expires_at <= tx.now {
                Err(Error::bad("Device request expired"))
            } else {
                Ok((key, d.dup()))
            }
        },
    }
}

/// Why a decision on a device request is refused. `identity_ok` says whether the identity and
/// claim policies accept the session's identity for the client.
pub open spec fn decision_check(
    t: TxModel,
    user_code_hash: Seq<char>,
    approve: bool,
    identity_ok: bool,
) -> Result<(Seq<char>, DeviceModel), Failure> {
    match device_for(t, user_code_hash) {
        Err(f) => Err(f),
        Ok((key, d)) => if d.status != DeviceStatusModel::Pending {
            Err(Failure::Conflict("Device request already decided"@))
        } else if !active_client(t, d.client_id) {
            Err(client_failure())
        } else if approve && !identity_ok {
            Err(Failure::Refused("identity"@))
        } else if approve && !d.scopes.subset_of(t.clients[d.client_id].scopes) {
            Err(Failure::Forbidden)
        } else {
            Ok((key, d))
        },
    }
}

/// What a decision on a device request does.
pub open spec fn device_decided(
    t: TxModel,
    session: SessionModel,
    user_code_hash: Seq<char>,
    approve: bool,
    identity_ok: bool,
) -> (TxModel, Result<bool, Failure>) {
    match decision_check(t, user_code_hash, approve, identity_ok) {
        Err(f) => (t, Err(f)),
        Ok((key, d)) => (
            audited(
                TxModel {
                    devices: t.devices.insert(
                        key,
                        DeviceModel {
                            status: if approve {
                                DeviceStatusModel::Approved(session.identity)
                            } else {
                                DeviceStatusModel::Denied
                            },
                            ..d
                        },
                    ),
                    ..t
                },
                session.identity.user_id,
                if approve {
                    "device.approved"@
                } else {
                    "device.denied"@
                },
                d.client_id,
            ),
            Ok(approve),
        ),
    }
}

impl Core {
    /// Approves or denies a device request, once.
    pub fn device_decide(
        &self,
        tx: &mut Tx,
        session: &Session,
        user_code_hash: &str,
        approve: bool,
        identity_ok: bool,
    ) -> (r: Result<bool, Error>)
        ensures
            ({
                let out = device_decided(
                    old(tx)@,
                    session@,
                    user_code_hash@,
                    approve,
                    identity_ok,
                );
                final(tx)@ == out.0 && match out.1 {
                    Ok(b) => r == Ok::<bool, Error>(b),
                    Err(f) => fails(r, f),
                }
            }),
    {
        let (key, mut device) = match lookup_device(tx, user_code_hash) {
            Ok(p) => p,
            Err(e) => return Err(e),
        };
        let pending = match &device.status {
            DeviceStatus::Pending => true,
            _ => false,
        };
        if !pending {
            return Err(Error::conflict("Device request already decided"));
        }
        let client = match get_client(tx, device.client_id.as_str()) {
            Ok(c) => c,
            Err(e) => return Err(e),
        };
        if approve {
            if !identity_ok {
                return Err(Error::Refused("identity".to_owned()));
            }
            if !device.scopes.is_subset(&client.scopes) {
                return Err(Error::Forbidden);
            }
            device.status = DeviceStatus::Approved(session.identity.dup());
        } else {
            device.status = DeviceStatus::Denied;
        }
        let target = device.client_id.clone();
        tx.devices.put(key.as_str(), device);
        audit(
            tx,
            session.identity.user_id.as_str(),
            if approve {
                "device.approved"
            } else {
                "device.denied"
            },
            target.as_str(),
        );
        Ok(approve)
    }
}

/// The device polled before its interval passed.
pub open spec fn polled_early(d: DeviceModel, at: u64) -> bool {
    d.last_poll_at matches Some(last) && at < last + d.interval
}

/// The request of a poll, or why it is refused before the device is looked at.
pub open spec fn poll_check(
    t: TxModel,
    r: TokenRequestModel,
    verified: Option<AssertionClaimsModel>,
) -> Result<(ClientModel, DeviceModel), Failure> {
    if !authenticates(t, r, false, verified) {
        Err(client_failure())
    } else {
        let c = t.clients[r.client_id->0];
        if grant_check(c, DEVICE_GRANT@) is Err {
            Err(grant_check(c, DEVICE_GRANT@)->Err_0)
        } else if !given(r.device_code) {
            Err(Failure::Bad("Missing "@ + "device_code"@))
        } else if !t.devices.dom().contains(digest_of(r.device_code->0))
            || t.devices[digest_of(r.device_code->0)].client_id != c.id {
            Err(grant_failure())
        } else {
            Ok((c, t.devices[digest_of(r.device_code->0)]))
        }
    }
}

/// What a device poll leaves in the store and answers. Early polls and polls before the decision
/// are noted, and an early one makes the interval longer.
pub open spec fn device_exchange(
    t: TxModel,
    cfg: ConfigModel,
    r: TokenRequestModel,
    verified: Option<AssertionClaimsModel>,
    identity_ok: bool,
    possession: Option<ProofModel>,
) -> (TxModel, Result<GrantModel, Failure>) {
    match poll_check(t, r, verified) {
        Err(f) => (t, Err(f)),
        Ok((c, d)) => {
            let t1 = authenticated(t, r, verified);
            let key = digest_of(r.device_code->0);
            if d.expires_at <= t.now {
                (t1, Err(Failure::Oauth("expired_token"@, "Device code expired"@)))
            } else if polled_early(d, t.now) {
                (
                    TxModel {
                        devices: t1.devices.insert(
                            key,
                            DeviceModel {
                                interval: extended(d.interval, 5),
                                last_poll_at: Some(t.now),
                                ..d
                            },
                        ),
                        ..t1
                    },
                    Err(
                        Failure::Oauth(
                            "slow_down"@,
                            "Increase your polling interval by five seconds"@,
                        ),
                    ),
                )
            } else {
                match d.status {
                    DeviceStatusModel::Pending => (
                        TxModel {
                            devices: t1.devices.insert(
                                key,
                                DeviceModel { last_poll_at: Some(t.now), ..d },
                            ),
                            ..t1
                        },
                        Err(
                            Failure::Oauth(
                                "authorization_pending"@,
                                "Waiting for terminal approval"@,
                            ),
                        ),
                    ),
                    DeviceStatusModel::Denied => (
                        t1,
                        Err(Failure::Oauth("access_denied"@, "Authorization denied"@)),
                    ),
                    DeviceStatusModel::Approved(identity) => if !identity_ok
                        || !d.scopes.subset_of(c.scopes) {
                        (t, Err(grant_failure()))
                    } else if possession is None {
                        (t, Err(proof_failure()))
                    } else if bind_check(c, d.scopes, r.resource, d.resource) is Err {
                        (t, Err(bind_check(c, d.scopes, r.resource, d.resource)->Err_0))
                    } else {
                        let g = GrantModel {
                            resource: d.resource,
                            ..proved(
                                fresh_grant(t1, cfg, c, Some(identity), d.scopes, None),
                                possession->0,
                            )
                        };
                        let t2 = family_opened(t1, g.expires_at);
                        (
                            TxModel {
                                device_users: t2.device_users.remove(d.user_code_hash),
                                devices: t2.devices.remove(key),
                                ..t2
                            },
                            Ok(g),
                        )
                    },
                }
            }
        },
    }
}

impl Core {
    /// Answers a device poll. An approved request gives one grant, for which the caller issues
    /// tokens in the same transaction.
    pub fn exchange_device_with(
        &self,
        tx: &mut Tx,
        request: &TokenRequest,
        verified: &Option<AssertionClaims>,
        identity_ok: bool,
        possession: Option<&Proof>,
    ) -> (r: Result<Grant, Error>)
        ensures
            ({
                let out = device_exchange(
                    old(tx)@,
                    self@.config,
                    request@,
                    opt_view(*verified),
                    identity_ok,
                    opt_proof(possession),
                );
                final(tx)@ == out.0 && agrees_with(r, out.1)
            }),
    {
        let client = match check_client(tx, request, false, verified) {
            Ok(c) => c,
            Err(e) => return Err(e),
        };
        if let Err(e) = grant_allowed(&client, DEVICE_GRANT) {
            return Err(e);
        }
        let presented = match required(&request.device_code, "device_code") {
            Ok(c) => c,
            Err(e) => return Err(e),
        };
        let key = digest(presented);
        let mut device = match tx.devices.get(key.as_str()) {
            Some(d) => d.dup(),
            None => return Err(invalid_grant()),
        };
        if !same(device.client_id.as_str(), client.id.as_str()) {
            return Err(invalid_grant());
        }
        let at = tx.now;
        if device.expires_at <= at {
            note_client(tx, request, false, verified);
            return Err(Error::oauth("expired_token", "Device code expired"));
        }
        let early = match device.last_poll_at {
            Some(last) => at < last || at - last < device.interval,
            None => false,
        };
        if early {
            note_client(tx, request, false, verified);
            device.interval = device.interval.saturating_add(5);
            device.last_poll_at = Some(at);
            tx.devices.put(key.as_str(), device);
            return Err(
                Error::oauth("slow_down", "Increase your polling interval by five seconds"),
            );
        }
        let identity = match &device.status {
            DeviceStatus::Pending => {
                note_client(tx, request, false, verified);
                device.last_poll_at = Some(at);
                tx.devices.put(key.as_str(), device);
                return Err(
                    Error::oauth("authorization_pending", "Waiting for terminal approval"),
                );
            },
            DeviceStatus::Denied => {
                note_client(tx, request, false, verified);
                return Err(Error::oauth("access_denied", "Authorization denied"));
            },
            DeviceStatus::Approved(i) => i.dup(),
        };
        if !identity_ok || !device.scopes.is_subset(&client.scopes) {
            return Err(invalid_grant());
        }
        let bound = match possession {
            Some(p) => p,
            None => return Err(Error::Refused("dpop".to_owned())),
        };
        let asked = match &request.resource {
            Some(x) => Some(x.as_str()),
            None => None,
        };
        let granted = match &device.resource {
            Some(x) => Some(x.as_str()),
            None => None,
        };
        if let Err(e) = check_bind(&client, &device.scopes, asked, granted) {
            return Err(e);
        }
        note_client(tx, request, false, verified);
        let mut grant = self.new_grant(tx, &client, Some(identity), device.scopes.copy(), None);
        grant.confirmation_jkt = copy_opt(&bound.confirmation_jkt);
        grant.id_token_jkt = copy_opt(&bound.id_token_jkt);
        grant.resource = copy_opt(&device.resource);
        tx.device_users.delete(device.user_code_hash.as_str());
        tx.devices.delete(key.as_str());
        Ok(grant)
    }
}

/// A device code gives at most one grant, and each early poll makes its interval longer.
pub proof fn devices_are_redeemed_once(
    t: TxModel,
    cfg: ConfigModel,
    r: TokenRequestModel,
    verified: Option<AssertionClaimsModel>,
    identity_ok: bool,
    possession: Option<ProofModel>,
)
    ensures
        ({
            let out = device_exchange(t, cfg, r, verified, identity_ok, possession);
            let key = digest_of(r.device_code->0);
            &&& out.1 is Ok ==> !out.0.devices.dom().contains(key)
            &&& poll_check(t, r, verified) is Ok && t.devices[key].expires_at > t.now && polled_early(
                t.devices[key],
                t.now,
            ) ==> out.1 is Err && out.0.devices[key].interval == extended(t.devices[key].interval, 5)
        }),
{
}

/// What a client credentials request answers.
pub open spec fn service_exchange(
    t: TxModel,
    cfg: ConfigModel,
    r: TokenRequestModel,
    verified: Option<AssertionClaimsModel>,
    possession: Option<ProofModel>,
) -> (TxModel, Result<GrantModel, Failure>) {
    if !authenticates(t, r, true, verified) {
        (t, Err(client_failure()))
    } else {
        let c = t.clients[r.client_id->0];
        let asked = requested_scopes(
            match r.scope {
                Some(s) => s,
                None => joined(in_order(c.scopes), " "@),
            },
            c,
        );
        if grant_check(c, "client_credentials"@) is Err {
            (t, Err(grant_check(c, "client_credentials"@)->Err_0))
        } else if !c.service {
            (
                t,
                Err(
                    Failure::Oauth(
                        "unauthorized_client"@,
                        "Client credentials requires a service client"@,
                    ),
                ),
            )
        } else if asked is Err {
            (t, Err(asked->Err_0))
        } else if resource_check(c, r.resource, asked->Ok_0) is Err {
            (t, Err(resource_check(c, r.resource, asked->Ok_0)->Err_0))
        } else if possession is None {
            (t, Err(proof_failure()))
        } else {
            let t1 = authenticated(t, r, verified);
            let g = GrantModel {
                resource: r.resource,
                ..proved(fresh_grant(t1, cfg, c, None, asked->Ok_0, None), possession->0)
            };
            (family_opened(t1, g.expires_at), Ok(g))
        }
    }
}

impl Core {
    /// A grant for a service client in its own name, with all its scopes unless it asks for fewer.
    pub fn client_credentials_with(
        &self,
        tx: &mut Tx,
        request: &TokenRequest,
        verified: &Option<AssertionClaims>,
        possession: Option<&Proof>,
    ) -> (r: Result<Grant, Error>)
        ensures
            ({
                let out = service_exchange(
                    old(tx)@,
                    self@.config,
                    request@,
                    opt_view(*verified),
                    opt_proof(possession),
                );
                final(tx)@ == out.0 && agrees_with(r, out.1)
            }),
    {
        let client = match check_client(tx, request, true, verified) {
            Ok(c) => c,
            Err(e) => return Err(e),
        };
        if let Err(e) = grant_allowed(&client, "client_credentials") {
            return Err(e);
        }
        if !client.service {
            return Err(
                Error::oauth("unauthorized_client", "Client credentials requires a service client"),
            );
        }
        let all = client.scopes.join(" ");
        let text = match &request.scope {
            Some(s) => s.as_str(),
            None => all.as_str(),
        };
        let scopes = match scope_request(text, &client) {
            Ok(s) => s,
            Err(e) => return Err(e),
        };
        let asked = match &request.resource {
            Some(x) => Some(x.as_str()),
            None => None,
        };
        if let Err(e) = check_bind(&client, &scopes, asked, asked) {
            return Err(e);
        }
        let bound = match possession {
            Some(p) => p,
            None => return Err(Error::Refused("dpop".to_owned())),
        };
        note_client(tx, request, true, verified);
        let mut grant = self.new_grant(tx, &client, None, scopes, None);
        grant.confirmation_jkt = copy_opt(&bound.confirmation_jkt);
        grant.id_token_jkt = copy_opt(&bound.id_token_jkt);
        grant.resource = copy_opt(&request.resource);
        Ok(grant)
    }
}

/// The refresh grant of a request, or why it is refused before it is looked at further.
pub open spec fn refresh_check(
    t: TxModel,
    r: TokenRequestModel,
    verified: Option<AssertionClaimsModel>,
) -> Result<(ClientModel, GrantModel), Failure> {
    if !authenticates(t, r, false, verified) {
        Err(client_failure())
    } else {
        let c = t.clients[r.client_id->0];
        if grant_check(c, "refresh_token"@) is Err {
            Err(grant_check(c, "refresh_token"@)->Err_0)
        } else if !given(r.refresh_token) {
            Err(Failure::Bad("Missing "@ + "refresh_token"@))
        } else if !t.refresh.dom().contains(digest_of(r.refresh_token->0)) {
            Err(grant_failure())
        } else {
            let g = t.refresh[digest_of(r.refresh_token->0)];
            if g.client_id != c.id || g.expires_at <= t.now {
                Err(grant_failure())
            } else if bind_check(c, g.scopes, r.resource, g.resource) is Err {
                Err(bind_check(c, g.scopes, r.resource, g.resource)->Err_0)
            } else {
                Ok((c, g))
            }
        }
    }
}

/// What a refresh leaves in the store and answers. A token that was used before revokes its family.
pub open spec fn refresh_exchange(
    t: TxModel,
    r: TokenRequestModel,
    verified: Option<AssertionClaimsModel>,
    possession: Option<ProofModel>,
    s: StandingModel,
) -> (TxModel, Result<GrantModel, Failure>) {
    match refresh_check(t, r, verified) {
        Err(f) => (t, Err(f)),
        Ok((c, g)) => {
            let key = digest_of(r.refresh_token->0);
            let asked = requested_scopes(r.scope->0, c);
            let t1 = authenticated(t, r, verified);
            if possession is None {
                (t, Err(proof_failure()))
            } else if g.used {
                (
                    audited(
                        family_revoked(t1, g.family_id),
                        c.id,
                        "refresh.replay"@,
                        g.family_id,
                    ),
                    Err(grant_failure()),
                )
            } else if chain_check(t, key, g, 0, s) is Err {
                (t, Err(grant_failure()))
            } else if r.scope is Some && asked is Err {
                (t, Err(asked->Err_0))
            } else if r.scope is Some && !(asked->Ok_0).subset_of(g.scopes) {
                (t, Err(Failure::Oauth("invalid_scope"@, "Refresh scope cannot be expanded"@)))
            } else {
                (
                    TxModel {
                        refresh: t1.refresh.insert(key, GrantModel { used: true, ..g }),
                        ..t1
                    },
                    Ok(
                        GrantModel {
                            scopes: if r.scope is Some {
                                asked->Ok_0
                            } else {
                                g.scopes
                            },
                            issued_at: t.now,
                            ..proved(g, possession->0)
                        },
                    ),
                )
            }
        },
    }
}

impl Core {
    /// Spends a refresh token for the grant that the next tokens are issued for.
    pub fn refresh_with(
        &self,
        tx: &mut Tx,
        request: &TokenRequest,
        verified: &Option<AssertionClaims>,
        possession: Option<&Proof>,
        standing: &Standing,
    ) -> (r: Result<Grant, Error>)
        ensures
            ({
                let out = refresh_exchange(
                    old(tx)@,
                    request@,
                    opt_view(*verified),
                    opt_proof(possession),
                    standing@,
                );
                final(tx)@ == out.0 && agrees_with(r, out.1)
            }),
    {
        let client = match check_client(tx, request, false, verified) {
            Ok(c) => c,
            Err(e) => return Err(e),
        };
        if let Err(e) = grant_allowed(&client, "refresh_token") {
            return Err(e);
        }
        let presented = match required(&request.refresh_token, "refresh_token") {
            Ok(c) => c,
            Err(e) => return Err(e),
        };
        let key = digest(presented);
        let mut grant = match tx.refresh.get(key.as_str()) {
            Some(g) => g.dup(),
            None => return Err(invalid_grant()),
        };
        if !same(grant.client_id.as_str(), client.id.as_str()) || grant.expires_at <= tx.now {
            return Err(invalid_grant());
        }
        let asked = match &request.resource {
            Some(x) => Some(x.as_str()),
            None => None,
        };
        let granted = match &grant.resource {
            Some(x) => Some(x.as_str()),
            None => None,
        };
        if let Err(e) = check_bind(&client, &grant.scopes, asked, granted) {
            return Err(e);
        }
        let bound = match possession {
            Some(p) => p,
            None => return Err(Error::Refused("dpop".to_owned())),
        };
        if grant.used {
            note_client(tx, request, false, verified);
            revoke_family(tx, grant.family_id.as_str());
            audit(tx, client.id.as_str(), "refresh.replay", grant.family_id.as_str());
            return Err(invalid_grant());
        }
        if let Err(_) = self.validate_grant(tx, key.as_str(), &grant, standing) {
            return Err(invalid_grant());
        }
        let mut replacement = grant.dup();
        replacement.confirmation_jkt = copy_opt(&bound.confirmation_jkt);
        replacement.id_token_jkt = copy_opt(&bound.id_token_jkt);
        if let Some(scope) = &request.scope {
            let requested = match scope_request(scope.as_str(), &client) {
                Ok(s) => s,
                Err(e) => return Err(e),
            };
            if !requested.is_subset(&grant.scopes) {
                return Err(Error::oauth("invalid_scope", "Refresh scope cannot be expanded"));
            }
            replacement.scopes = requested;
        }
        note_client(tx, request, false, verified);
        replacement.issued_at = tx.now;
        grant.used = true;
        tx.refresh.put(key.as_str(), grant);
        Ok(replacement)
    }
}

/// A refresh token is used once: its second use revokes its family. A refresh never adds scopes.
pub proof fn refresh_tokens_are_used_once(
    t: TxModel,
    r: TokenRequestModel,
    verified: Option<AssertionClaimsModel>,
    possession: Option<ProofModel>,
    again: Option<ProofModel>,
    s: StandingModel,
)
    requires
        refresh_exchange(t, r, verified, possession, s).1 is Ok,
    ensures
        ({
            let t1 = refresh_exchange(t, r, verified, possession, s).0;
            let g = refresh_exchange(t, r, verified, possession, s).1->Ok_0;
            let out = refresh_exchange(t1, r, verified, again, s);
            &&& g.scopes.subset_of(t.refresh[digest_of(r.refresh_token->0)].scopes)
            &&& out.1 is Err
            &&& refresh_check(t1, r, verified) is Ok && again is Some && t1.families.dom().contains(
                g.family_id,
            ) ==> out.0.families[g.family_id].revoked
        }),
{
}

impl Core {
    /// Opens a device authorization. `user_code_hash` is the digest of the code that the user will
    /// type, which the caller drew so that no other request has it.
    pub fn device_start(
        &self,
        tx: &mut Tx,
        request: &TokenRequest,
        user_code_hash: &str,
    ) -> (r: Result<DeviceReply, Error>)
        ensures
            exists|v: Option<AssertionClaimsModel>| #[trigger]
                claims_offered(old(tx)@, request@, v) && ({
                    let out = device_begun(old(tx)@, request@, v, user_code_hash@);
                    final(tx)@ == out.0 && agrees_with(r, out.1)
                }),
    {
        let verified = read_assertion(tx, request);
        assert(claims_offered(tx@, request@, opt_view(verified)));
        self.device_start_with(tx, request, &verified, user_code_hash)
    }

    /// Answers a device poll. An approved request gives one grant, for which the caller issues
    /// tokens in the same transaction.
    pub fn exchange_device(
        &self,
        tx: &mut Tx,
        request: &TokenRequest,
        identity_ok: bool,
        possession: Option<&Proof>,
    ) -> (r: Result<Grant, Error>)
        ensures
            exists|v: Option<AssertionClaimsModel>| #[trigger] claims_offered(old(tx)@, request@, v) && (({
                let out = device_exchange(
                    old(tx)@,
                    self@.config,
                    request@,
                    v,
                    identity_ok,
                    opt_proof(possession),
                );
                final(tx)@ == out.0 && agrees_with(r, out.1)
            })),
    {
        let verified = read_assertion(tx, request);
        assert(claims_offered(tx@, request@, opt_view(verified)));
        self.exchange_device_with(tx, request, &verified, identity_ok, possession)
    }

    /// A grant for a service client in its own name, with all its scopes unless it asks for fewer.
    pub fn client_credentials(
        &self,
        tx: &mut Tx,
        request: &TokenRequest,
        possession: Option<&Proof>,
    ) -> (r: Result<Grant, Error>)
        ensures
            exists|v: Option<AssertionClaimsModel>| #[trigger] claims_offered(old(tx)@, request@, v) && (({
                let out = service_exchange(
                    old(tx)@,
                    self@.config,
                    request@,
                    v,
                    opt_proof(possession),
                );
                final(tx)@ == out.0 && agrees_with(r, out.1)
            })),
    {
        let verified = read_assertion(tx, request);
        assert(claims_offered(tx@, request@, opt_view(verified)));
        self.client_credentials_with(tx, request, &verified, possession)
    }

    /// Spends a refresh token for the grant that the next tokens are issued for.
    pub fn refresh(
        &self,
        tx: &mut Tx,
        request: &TokenRequest,
        possession: Option<&Proof>,
        standing: &Standing,
    ) -> (r: Result<Grant, Error>)
        ensures
            exists|v: Option<AssertionClaimsModel>| #[trigger] claims_offered(old(tx)@, request@, v) && (({
                let out = refresh_exchange(
                    old(tx)@,
                    request@,
                    v,
                    opt_proof(possession),
                    standing@,
                );
                final(tx)@ == out.0 && agrees_with(r, out.1)
            })),
    {
        let verified = read_assertion(tx, request);
        assert(claims_offered(tx@, request@, opt_view(verified)));
        self.refresh_with(tx, request, &verified, possession, standing)
    }
}

/// What a device is granted is what its user approved: the approving login, the scopes and the
/// resource of the request, for the client of the device, and the device is forgotten.
pub proof fn devices_get_what_was_approved(
    t: TxModel,
    cfg: ConfigModel,
    r: TokenRequestModel,
    verified: Option<AssertionClaimsModel>,
    identity_ok: bool,
    possession: Option<ProofModel>,
)
    requires
        device_exchange(t, cfg, r, verified, identity_ok, possession).1 is Ok,
    ensures
        ({
            let out = device_exchange(t, cfg, r, verified, identity_ok, possession);
            let g = out.1->Ok_0;
            let key = digest_of(r.device_code->0);
            let d = t.devices[key];
            let c = t.clients[r.client_id->0];
            let ttl = if d.scopes.contains("offline_access"@) {
                if c.settings.refresh_token_ttl is Some {
                    c.settings.refresh_token_ttl->0
                } else {
                    cfg.refresh_token_ttl
                }
            } else if c.settings.access_token_ttl is Some {
                c.settings.access_token_ttl->0
            } else {
                cfg.access_token_ttl
            };
            &&& d.status == DeviceStatusModel::Approved(g.identity->0)
            &&& g.identity is Some
            &&& g.client_id == d.client_id && g.client_id == c.id
            &&& g.scopes == d.scopes
            &&& g.resource == d.resource
            &&& g.confirmation_jkt == (possession->0).confirmation_jkt
            &&& g.nonce is None && g.exchange is None && !g.used
            &&& g.issued_at == t.now
            &&& t.now + ttl <= u64::MAX ==> g.expires_at == t.now + ttl
            &&& out.0.families.dom().contains(g.family_id) && !out.0.families[g.family_id].revoked
            &&& out.0.families[g.family_id].expires_at == g.expires_at
            &&& !out.0.devices.dom().contains(key)
            &&& !out.0.device_users.dom().contains(d.user_code_hash)
        }),
{
}

/// What a device is answered while it polls in time: to wait before the decision, that it was denied,
/// or its grant once it was approved. An expired request and an early poll are told as such.
pub proof fn polls_are_answered_by_the_decision(
    t: TxModel,
    cfg: ConfigModel,
    r: TokenRequestModel,
    possession: ProofModel,
)
    requires
        authenticates(t, r, false, None),
        r.client_assertion is None && r.client_assertion_type is None,
        t.clients[r.client_id->0].settings.allowed_grants.contains(
            "urn:ietf:params:oauth:grant-type:device_code"@,
        ),
        r.device_code is Some && (r.device_code->0).len() > 0,
        r.resource is None,
        t.devices.dom().contains(digest_of(r.device_code->0)),
        t.devices[digest_of(r.device_code->0)].client_id == t.clients[r.client_id->0].id,
        t.devices[digest_of(r.device_code->0)].resource is None,
        t.devices[digest_of(r.device_code->0)].scopes.subset_of(t.clients[r.client_id->0].scopes),
    ensures
        ({
            let d = t.devices[digest_of(r.device_code->0)];
            let out = device_exchange(t, cfg, r, None, true, Some(possession)).1;
            let early = d.last_poll_at is Some && t.now < d.last_poll_at->0 + d.interval;
            &&& d.expires_at <= t.now ==> (out matches Err(Failure::Oauth(code, _)) && code == "expired_token"@)
            &&& d.expires_at > t.now && early ==> (out matches Err(Failure::Oauth(code, _)) && code == "slow_down"@)
            &&& d.expires_at > t.now && !early && d.status is Pending ==> (out matches Err(Failure::Oauth(code, _)) && code == "authorization_pending"@)
            &&& d.expires_at > t.now && !early && d.status is Denied ==> (out matches Err(Failure::Oauth(code, _)) && code == "access_denied"@)
            &&& d.expires_at > t.now && !early && d.status is Approved ==> out is Ok
        }),
{
}

/// Who decides on a device request decides for everybody: an approval leaves the request to the
/// approver's login, a denial ends it, and a request that was decided is not decided again.
pub proof fn device_decisions_stand(
    t: TxModel,
    session: SessionModel,
    hash: Seq<char>,
    approve: bool,
    identity_ok: bool,
    other: SessionModel,
    again: bool,
)
    requires
        device_decided(t, session, hash, approve, identity_ok).1 is Ok,
    ensures
        ({
            let out = device_decided(t, session, hash, approve, identity_ok);
            let key = t.device_users[hash];
            let d = out.0.devices[key];
            &&& out.1 == Ok::<bool, Failure>(approve)
            &&& d.status == if approve {
                DeviceStatusModel::Approved(session.identity)
            } else {
                DeviceStatusModel::Denied
            }
            &&& d.scopes == t.devices[key].scopes && d.client_id == t.devices[key].client_id
            &&& d.expires_at == t.devices[key].expires_at && d.user_code_hash
                == t.devices[key].user_code_hash
            &&& t.devices[key].status is Pending
            &&& out.0.audit.last().actor == session.identity.user_id
            &&& out.0.audit.last().action == if approve {
                "device.approved"@
            } else {
                "device.denied"@
            }
            &&& device_decided(out.0, other, hash, again, identity_ok).1 is Err
            &&& device_decided(out.0, other, hash, again, identity_ok).0 == out.0
        }),
{
}

/// A pending request of a standing client can be approved by whoever its policies accept, and denied
/// by anybody.
pub proof fn pending_devices_can_be_decided(
    t: TxModel,
    session: SessionModel,
    hash: Seq<char>,
    approve: bool,
)
    requires
        t.device_users.dom().contains(hash),
        t.devices.dom().contains(t.device_users[hash]),
        t.devices[t.device_users[hash]].expires_at > t.now,
        t.devices[t.device_users[hash]].status is Pending,
        t.clients.dom().contains(t.devices[t.device_users[hash]].client_id),
        t.clients[t.devices[t.device_users[hash]].client_id].enabled,
        t.devices[t.device_users[hash]].scopes.subset_of(
            t.clients[t.devices[t.device_users[hash]].client_id].scopes,
        ),
    ensures
        device_decided(t, session, hash, approve, true).1 is Ok,
        device_decided(t, session, hash, false, false).1 is Ok,
{
}

/// A refresh gives the same grant again: the login, the client, the family and the end stay, the
/// scopes stay or are those that were asked for, and the token that was used is marked as used.
pub proof fn refreshes_give_the_same_grant(
    t: TxModel,
    r: TokenRequestModel,
    verified: Option<AssertionClaimsModel>,
    possession: Option<ProofModel>,
    s: StandingModel,
)
    requires
        refresh_exchange(t, r, verified, possession, s).1 is Ok,
    ensures
        ({
            let out = refresh_exchange(t, r, verified, possession, s);
            let g = out.1->Ok_0;
            let key = digest_of(r.refresh_token->0);
            let was = t.refresh[key];
            &&& g.client_id == was.client_id
            &&& g.identity == was.identity
            &&& g.family_id == was.family_id
            &&& g.expires_at == was.expires_at
            &&& g.resource == was.resource
            &&& g.nonce == was.nonce
            &&& g.exchange == was.exchange
            &&& g.issued_at == t.now
            &&& g.confirmation_jkt == (possession->0).confirmation_jkt
            &&& r.scope is None ==> g.scopes == was.scopes
            &&& r.scope is Some ==> g.scopes == scope_words(r.scope->0)
            &&& out.0.refresh[key].used
            &&& out.0.refresh[key].family_id == was.family_id
            &&& out.0.families == t.families
        }),
{
}

/// A refresh token that stands is refreshed: by its client, before its end, for the first time.
pub proof fn standing_tokens_are_refreshed(
    t: TxModel,
    r: TokenRequestModel,
    possession: ProofModel,
    s: StandingModel,
)
    requires
        authenticates(t, r, false, None),
        r.client_assertion is None && r.client_assertion_type is None,
        t.clients[r.client_id->0].settings.allowed_grants.contains("refresh_token"@),
        r.refresh_token is Some && (r.refresh_token->0).len() > 0,
        r.resource is None,
        r.scope is None,
        t.refresh.dom().contains(digest_of(r.refresh_token->0)),
        ({
            let key = digest_of(r.refresh_token->0);
            let g = t.refresh[key];
            &&& g.client_id == t.clients[r.client_id->0].id
            &&& g.resource is None && g.exchange is None && g.machine_trust_hash is None
            &&& g.identity is Some
            &&& t.families.dom().contains(g.family_id)
            &&& !t.families[g.family_id].revoked
            &&& t.families[g.family_id].expires_at > t.now
            &&& t.clients.dom().contains(g.client_id) && t.clients[g.client_id].enabled
            &&& g.scopes.subset_of(t.clients[g.client_id].scopes)
            &&& !s.unauthorized.contains(key) && !s.refused.contains(key)
        }),
    ensures
        ({
            let g = t.refresh[digest_of(r.refresh_token->0)];
            refresh_exchange(t, r, None, Some(possession), s).1 is Ok <==> g.expires_at > t.now && !g.used
        }),
{
    let key = digest_of(r.refresh_token->0);
    let g = t.refresh[key];
    if g.expires_at > t.now && !g.used {
        assert(local_check(t, key, g, s) is Ok);
        assert(chain_check(t, key, g, 0, s) is Ok);
    }
}

/// A service client that authenticates gets a grant of its own: without a user, with the scopes that
/// it asked for.
pub proof fn services_get_a_grant_of_their_own(
    t: TxModel,
    cfg: ConfigModel,
    r: TokenRequestModel,
    possession: ProofModel,
)
    requires
        authenticates(t, r, true, None),
        r.client_assertion is None && r.client_assertion_type is None,
        t.clients[r.client_id->0].settings.allowed_grants.contains("client_credentials"@),
        t.clients[r.client_id->0].service,
        r.resource is None,
        r.scope is Some,
        byte_count(r.scope->0) <= 2048,
        scope_words(r.scope->0) != Set::<Seq<char>>::empty(),
        scope_words(r.scope->0).subset_of(t.clients[r.client_id->0].scopes),
    ensures
        ({
            let out = service_exchange(t, cfg, r, None, Some(possession));
            let g = out.1->Ok_0;
            let c = t.clients[r.client_id->0];
            let ttl = if c.settings.access_token_ttl is Some {
                c.settings.access_token_ttl->0
            } else {
                cfg.access_token_ttl
            };
            &&& out.1 is Ok
            &&& g.client_id == c.id
            &&& g.identity is None
            &&& g.scopes == scope_words(r.scope->0)
            &&& g.issued_at == t.now && !g.used
            &&& t.now + ttl <= u64::MAX ==> g.expires_at == t.now + ttl
            &&& out.0.families.dom().contains(g.family_id) && !out.0.families[g.family_id].revoked
        }),
{
}

/// What a request for a device gives: a code for the device, which waits for the user who holds the other
/// code.
pub open spec fn device_begun(
    t: TxModel,
    r: TokenRequestModel,
    verified: Option<AssertionClaimsModel>,
    user_code_hash: Seq<char>,
) -> (TxModel, Result<DeviceReplyModel, Failure>) {
    match device_check(t, r, verified) {
        Err(f) => (t, Err(f)),
        Ok(scopes) => {
            let t1 = authenticated(t, r, verified);
            let c = t.clients[r.client_id->0];
            let code = "ri_device_"@ + next_id(t1);
            (
                TxModel {
                    devices: t1.devices.insert(
                        digest_of(code),
                        new_device(t1, c, scopes, r.resource, user_code_hash),
                    ),
                    device_users: t1.device_users.insert(user_code_hash, digest_of(code)),
                    ..drawn(t1)
                },
                Ok(
                    DeviceReplyModel {
                        device_code: code,
                        expires_in: device_ttl(c),
                        interval: 5,
                    },
                ),
            )
        },
    }
}

/// A device that begins waits for its user, ten minutes or as long as the client says, for the scopes that
/// it asked for, and may poll every five seconds.
pub proof fn devices_wait_for_their_user(
    t: TxModel,
    r: TokenRequestModel,
    verified: Option<AssertionClaimsModel>,
    user_code_hash: Seq<char>,
)
    requires
        device_begun(t, r, verified, user_code_hash).1 is Ok,
    ensures
        ({
            let out = device_begun(t, r, verified, user_code_hash);
            let reply = out.1->Ok_0;
            let c = t.clients[r.client_id->0];
            let d = out.0.devices[digest_of(reply.device_code)];
            let ttl = if c.settings.device_ttl is Some {
                c.settings.device_ttl->0
            } else {
                600
            };
            &&& authenticates(t, r, false, verified)
            &&& !c.service
            &&& out.0.devices.dom().contains(digest_of(reply.device_code))
            &&& out.0.device_users[user_code_hash] == digest_of(reply.device_code)
            &&& d.client_id == c.id && d.user_code_hash == user_code_hash
            &&& d.resource == r.resource
            &&& d.status is Pending && d.last_poll_at is None && d.interval == 5
            &&& d.scopes.contains("openid"@) && d.scopes.subset_of(c.scopes)
            &&& t.now + ttl <= u64::MAX ==> d.expires_at == t.now + ttl
            &&& reply.expires_in == ttl && reply.interval == 5
            &&& out.0.access == t.access && out.0.refresh == t.refresh
        }),
{
}

/// A device may ask for a login of a client that is not a service and may use devices, with scopes of
/// the client and a login among them.
pub proof fn devices_ask_for_a_login(t: TxModel, r: TokenRequestModel, verified: Option<AssertionClaimsModel>)
    requires
        device_check(t, r, verified) is Ok,
    ensures
        ({
            let c = t.clients[r.client_id->0];
            let scopes = device_check(t, r, verified)->Ok_0;
            &&& authenticates(t, r, false, verified)
            &&& !c.service
            &&& c.settings.allowed_grants.len() > 0 ==> c.settings.allowed_grants.contains(
                "urn:ietf:params:oauth:grant-type:device_code"@,
            )
            &&& scopes.contains("openid"@)
            &&& scopes.subset_of(c.scopes)
            &&& r.scope is Some ==> scopes == scope_words(r.scope->0)
            &&& resource_check(c, r.resource, scopes) is Ok
        }),
{
}

/// A device is decided on once, while its client is enabled; it is approved only by somebody who may,
/// for scopes that the client still has.
pub proof fn decisions_are_made_once(t: TxModel, hash: Seq<char>, approve: bool, identity_ok: bool)
    ensures
        decision_check(t, hash, approve, identity_ok) matches Ok((key, d)) ==> device_for(t, hash) == Ok::<
            (Seq<char>, DeviceModel),
            Failure,
        >((key, d)) && d.status == DeviceStatusModel::Pending && t.clients.dom().contains(d.client_id)
            && t.clients[d.client_id].enabled && (approve ==> identity_ok && d.scopes.subset_of(
            t.clients[d.client_id].scopes,
        )),
        device_for(t, hash) matches Ok((_, d)) ==> (d.status == DeviceStatusModel::Pending
            && t.clients.dom().contains(d.client_id) && t.clients[d.client_id].enabled ==> decision_check(
            t,
            hash,
            false,
            identity_ok,
        ) is Ok),
{
}

/// A device may ask again after its interval, and waits for ten minutes unless its client says
/// otherwise.
pub proof fn devices_ask_in_intervals(d: DeviceModel, last: u64, at: u64, c: ClientModel)
    requires
        d.last_poll_at == Some(last),
        last <= at,
    ensures
        polled_early(d, at) <==> at - last < d.interval,
        c.settings.device_ttl is None ==> device_ttl(c) == 600,
        c.settings.device_ttl is Some ==> device_ttl(c) == c.settings.device_ttl->0,
{
}

} // verus!
