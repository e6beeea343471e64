//! Temporary group entitlements. The durable members of a group are never changed.
use crate::engine::{Core, audit, audited, drawn, extended, next_id};
use crate::error::{Error, Failure, agrees, agrees_with, and_also};
use crate::model::{User, UserModel};
use crate::names::{Names, in_order};
use crate::rules::{Rules, RulesModel, name_check};
use crate::store::{Tx, TxModel};
use crate::table::{Row, purges_leave_what_does_not_match, views, without};
use crate::text::{chars_of, contains, contains_text, has_control, lower, lowercase, same, some_control};
use crate::timeline::{Moment, enter, lemma_entered_members, moments, timeline};
use vstd::prelude::*;
use vstd::string::*;

verus! {

pub const RETAIN_SECONDS: u64 = 604800;

pub const MAX_PENDING: usize = 1000;

/// A request for a group.
pub struct AccessRequest {
    pub id: String,
    pub user_id: String,
    pub username: String,
    pub group: String,
    pub reason: String,
    pub ttl: u64,
    pub status: String,
    pub created_at: u64,
    pub decided_at: Option<u64>,
    pub decided_by: Option<String>,
    pub grant_id: Option<String>,
}

/// What a [`AccessRequest`] holds.
pub struct AccessRequestModel {
    pub id: Seq<char>,
    pub user_id: Seq<char>,
    pub username: Seq<char>,
    pub group: Seq<char>,
    pub reason: Seq<char>,
    pub ttl: u64,
    pub status: Seq<char>,
    pub created_at: u64,
    pub decided_at: Option<u64>,
    pub decided_by: Option<Seq<char>>,
    pub grant_id: Option<Seq<char>>,
}

impl View for AccessRequest {
    type V = AccessRequestModel;

    open spec fn view(&self) -> AccessRequestModel {
        AccessRequestModel {
            id: self.id@,
            user_id: self.user_id@,
            username: self.username@,
            group: self.group@,
            reason: self.reason@,
            ttl: self.ttl,
            status: self.status@,
            created_at: self.created_at,
            decided_at: self.decided_at,
            decided_by: crate::text::opt_text(self.decided_by),
            grant_id: crate::text::opt_text(self.grant_id),
        }
    }
}

impl Row for AccessRequest {
    fn dup(&self) -> (r: Self) {
        AccessRequest {
            id: self.id.clone(),
            user_id: self.user_id.clone(),
            username: self.username.clone(),
            group: self.group.clone(),
            reason: self.reason.clone(),
            ttl: self.ttl,
            status: self.status.clone(),
            created_at: self.created_at,
            decided_at: self.decided_at,
            decided_by: crate::text::copy_opt(&self.decided_by),
            grant_id: crate::text::copy_opt(&self.grant_id),
        }
    }
}

/// A user's time in a group.
pub struct AccessGrant {
    pub id: String,
    pub user_id: String,
    pub group: String,
    pub not_before: u64,
    pub expires_at: u64,
    pub request_id: String,
    pub revoked_at: Option<u64>,
    pub revoked_by: Option<String>,
}

/// What a [`AccessGrant`] holds.
pub struct AccessGrantModel {
    pub id: Seq<char>,
    pub user_id: Seq<char>,
    pub group: Seq<char>,
    pub not_before: u64,
    pub expires_at: u64,
    pub request_id: Seq<char>,
    pub revoked_at: Option<u64>,
    pub revoked_by: Option<Seq<char>>,
}

impl View for AccessGrant {
    type V = AccessGrantModel;

    open spec fn view(&self) -> AccessGrantModel {
        AccessGrantModel {
            id: self.id@,
            user_id: self.user_id@,
            group: self.group@,
            not_before: self.not_before,
            expires_at: self.expires_at,
            request_id: self.request_id@,
            revoked_at: self.revoked_at,
            revoked_by: crate::text::opt_text(self.revoked_by),
        }
    }
}

impl Row for AccessGrant {
    fn dup(&self) -> (r: Self) {
        AccessGrant {
            id: self.id.clone(),
            user_id: self.user_id.clone(),
            group: self.group.clone(),
            not_before: self.not_before,
            expires_at: self.expires_at,
            request_id: self.request_id.clone(),
            revoked_at: self.revoked_at,
            revoked_by: crate::text::copy_opt(&self.revoked_by),
        }
    }
}

pub struct NewAccessRequest {
    pub group: String,
    pub reason: String,
    pub ttl: u64,
}

/// What a [`NewAccessRequest`] holds.
pub struct NewAccessRequestModel {
    pub group: Seq<char>,
    pub reason: Seq<char>,
    pub ttl: u64,
}

impl View for NewAccessRequest {
    type V = NewAccessRequestModel;

    open spec fn view(&self) -> NewAccessRequestModel {
        NewAccessRequestModel {
            group: self.group@,
            reason: self.reason@,
            ttl: self.ttl,
        }
    }
}

impl Row for NewAccessRequest {
    fn dup(&self) -> (r: Self) {
        NewAccessRequest {
            group: self.group.clone(),
            reason: self.reason.clone(),
            ttl: self.ttl,
        }
    }
}

pub open spec fn grant_active(g: AccessGrantModel, now: u64) -> bool {
    g.revoked_at is None && g.not_before <= now < g.expires_at
}

impl AccessGrant {
    pub fn active(&self, now: u64) -> (r: bool)
        ensures
            r == grant_active(self@, now),
    {
        self.revoked_at.is_none() && self.not_before <= now && now < self.expires_at
    }
}

/// A reason that gives a credential away.
pub open spec fn reveals_secret(reason: Seq<char>) -> bool {
    let l = lower(reason);
    contains_text(l, "password"@) || contains_text(l, "secret"@) || contains_text(l, "bearer "@)
        || contains_text(l, "private key"@) || contains_text(l, "private_key"@) || contains_text(
        l,
        "begin "@,
    ) || contains_text(reason, "ri_session_"@) || contains_text(reason, "ri_agent_"@)
        || contains_text(reason, "ri_client_"@) || contains_text(reason, "ri_mail_"@)
        || contains_text(reason, "ri_recovery_"@) || contains_text(reason, "ri_portal_"@)
}

pub open spec fn reason_check(reason: Seq<char>) -> Result<(), Failure> {
    if reason.len() == 0 || reason.len() > 280 || some_control(reason) {
        Err(Failure::Bad("Reason must be 1–280 characters without control characters"@))
    } else if reveals_secret(reason) {
        Err(Failure::Bad("Reason must not contain secrets"@))
    } else {
        Ok(())
    }
}

pub fn validate_reason(reason: &str) -> (r: Result<(), Error>)
    ensures
        agrees(r, reason_check(reason@)),
{
    let v = chars_of(reason);
    if v.len() == 0 || v.len() > 280 || has_control(reason) {
        return Err(Error::bad("Reason must be 1–280 characters without control characters"));
    }
    let l = lowercase(reason);
    let s = l.as_str();
    if contains(s, "password") || contains(s, "secret") || contains(s, "bearer ") || contains(
        s,
        "private key",
    ) || contains(s, "private_key") || contains(s, "begin ") || contains(reason, "ri_session_")
        || contains(reason, "ri_agent_") || contains(reason, "ri_client_") || contains(
        reason,
        "ri_mail_",
    ) || contains(reason, "ri_recovery_") || contains(reason, "ri_portal_") {
        return Err(Error::bad("Reason must not contain secrets"));
    }
    Ok(())
}

/// The user's group `g` comes from a grant that is active.
pub open spec fn conferred(
    m: Map<Seq<char>, AccessGrantModel>,
    user_id: Seq<char>,
    now: u64,
    g: Seq<char>,
) -> bool {
    exists|k: Seq<char>| #[trigger]
        m.dom().contains(k) && m[k].user_id == user_id && grant_active(m[k], now) && m[k].group == g
}

/// The groups that active grants give the user. The durable members of groups do not count here.
#[verifier::loop_isolation(false)]
pub fn extra_groups(tx: &Tx, user_id: &str, now: u64) -> (r: Names)
    ensures
        forall|g: Seq<char>| #[trigger]
            r@.contains(g) <==> conferred(tx@.access_grants, user_id@, now, g),
{
    let grants = &tx.access_grants;
    let ghost m = tx@.access_grants;
    grants.listing();
    let n: usize = grants.len();
    let mut out = Names::new();
    let mut i: usize = 0;
    while i < n
        invariant
            i <= n,
            forall|g: Seq<char>| #[trigger]
                out@.contains(g) ==> conferred(m, user_id@, now, g),
            forall|k: int|
                0 <= k < i && (#[trigger] grants.entries()[k]).1.user_id == user_id@ && grant_active(
                    grants.entries()[k].1,
                    now,
                ) ==> out@.contains(grants.entries()[k].1.group),
        decreases n - i,
    {
        let grant = grants.row_at(i);
        if same(grant.user_id.as_str(), user_id) && grant.active(now) {
            proof {
                let e = grants.entries()[i as int];
                assert(m.dom().contains(e.0) && m[e.0] == e.1);
                assert(conferred(m, user_id@, now, e.1.group));
            }
            out.insert(grant.group.as_str());
        }
        i = i + 1;
    }
    proof {
        assert forall|g: Seq<char>| conferred(m, user_id@, now, g) implies #[trigger] out@.contains(g) by {
            let k = choose|k: Seq<char>| #[trigger]
                m.dom().contains(k) && m[k].user_id == user_id@ && grant_active(m[k], now) && m[k].group
                    == g;
            let a = choose|a: int|
                0 <= a < grants.entries().len() && (#[trigger] grants.entries()[a]).0 == k;
            assert(grants.entries()[a].1 == m[k]);
        }
    }
    out
}

/// When a request was settled, or made.
pub open spec fn request_anchor(q: AccessRequestModel) -> u64 {
    if q.status == "pending"@ || q.decided_at is None {
        q.created_at
    } else {
        q.decided_at->0
    }
}

pub open spec fn grant_anchor(g: AccessGrantModel) -> u64 {
    match g.revoked_at {
        Some(t) => t,
        None => g.expires_at,
    }
}

pub open spec fn request_over(at: u64) -> spec_fn(AccessRequestModel) -> bool {
    |q: AccessRequestModel| extended(request_anchor(q), RETAIN_SECONDS) <= at
}

pub open spec fn grant_over(at: u64) -> spec_fn(AccessGrantModel) -> bool {
    |g: AccessGrantModel| extended(grant_anchor(g), RETAIN_SECONDS) <= at
}

fn is_request_over(q: &AccessRequest, at: u64) -> (b: bool)
    ensures
        b == request_over(at)(q@),
{
    let pending = same(q.status.as_str(), "pending");
    let anchor = match q.decided_at {
        Some(t) => if pending {
            q.created_at
        } else {
            t
        },
        None => q.created_at,
    };
    anchor.saturating_add(RETAIN_SECONDS) <= at
}

fn is_grant_over(g: &AccessGrant, at: u64) -> (b: bool)
    ensures
        b == grant_over(at)(g@),
{
    let anchor = match g.revoked_at {
        Some(t) => t,
        None => g.expires_at,
    };
    anchor.saturating_add(RETAIN_SECONDS) <= at
}

/// Drops requests and grants a week after they ended.
pub fn cleanup(tx: &mut Tx, at: u64)
    ensures
        final(tx)@ == (TxModel {
            access_requests: without(old(tx)@.access_requests, request_over(at)),
            access_grants: without(old(tx)@.access_grants, grant_over(at)),
            ..old(tx)@
        }),
{
    tx.access_requests.purge(at, is_request_over, Ghost(request_over(at)));
    tx.access_grants.purge(at, is_grant_over, Ghost(grant_over(at)));
}

pub open spec fn is_pending() -> spec_fn(AccessRequestModel) -> bool {
    |q: AccessRequestModel| q.status == "pending"@
}

fn pick_pending(q: &AccessRequest) -> (b: bool)
    ensures
        b == is_pending()(q@),
{
    same(q.status.as_str(), "pending")
}

/// How many requests wait for a decision.
pub open spec fn pending_count(m: Map<Seq<char>, AccessRequestModel>) -> nat {
    m.dom().filter(|k: Seq<char>| is_pending()(m[k])).len()
}

/// What a request does.
pub open spec fn access_requested(
    t: TxModel,
    approvers: Map<Seq<char>, Set<Seq<char>>>,
    actor: UserModel,
    input: NewAccessRequestModel,
    rules: RulesModel,
) -> (TxModel, Result<AccessRequestModel, Failure>) {
    match and_also(name_check(rules, input.group), reason_check(input.reason)) {
        Err(f) => (t, Err(f)),
        Ok(_) => if !(60 <= input.ttl <= 86400) {
            (t, Err(Failure::Bad("Duration must be 60–86400 seconds"@)))
        } else if !actor.enabled {
            (t, Err(Failure::Bad("Requester is disabled"@)))
        } else if !t.groups.dom().contains(input.group) {
            (t, Err(Failure::Bad("Unknown group"@)))
        } else if !approvers.dom().contains(input.group) {
            (t, Err(Failure::Bad("No approver rule for this group"@)))
        } else if pending_count(t.access_requests) >= MAX_PENDING {
            (t, Err(Failure::Conflict("Too many pending access requests"@)))
        } else {
            let q = AccessRequestModel {
                id: next_id(t),
                user_id: actor.id,
                username: actor.username,
                group: input.group,
                reason: input.reason,
                ttl: input.ttl,
                status: "pending"@,
                created_at: t.now,
                decided_at: None,
                decided_by: None,
                grant_id: None,
            };
            (
                audited(
                    TxModel { access_requests: t.access_requests.insert(q.id, q), ..drawn(t) },
                    actor.id,
                    "access.request"@,
                    q.id,
                ),
                Ok(q),
            )
        },
    }
}

/// The grant of an approved request.
pub open spec fn grant_of(t: TxModel, q: AccessRequestModel) -> AccessGrantModel {
    AccessGrantModel {
        id: next_id(t),
        user_id: q.user_id,
        group: q.group,
        not_before: t.now,
        expires_at: extended(t.now, q.ttl),
        request_id: q.id,
        revoked_at: None,
        revoked_by: None,
    }
}

/// A decision: the request as it is then, and the grant of an approved one.
pub struct AccessDecision {
    pub request: AccessRequest,
    pub grant: Option<AccessGrant>,
}

/// What a [`AccessDecision`] holds.
pub struct AccessDecisionModel {
    pub request: AccessRequestModel,
    pub grant: Option<AccessGrantModel>,
}

impl View for AccessDecision {
    type V = AccessDecisionModel;

    open spec fn view(&self) -> AccessDecisionModel {
        AccessDecisionModel {
            request: self.request@,
            grant: crate::table::opt_view(self.grant),
        }
    }
}

impl Row for AccessDecision {
    fn dup(&self) -> (r: Self) {
        AccessDecision {
            request: self.request.dup(),
            grant: crate::table::dup_opt(&self.grant),
        }
    }
}

/// What a decision does.
pub open spec fn access_decided(
    t: TxModel,
    approvers: Map<Seq<char>, Set<Seq<char>>>,
    actor: UserModel,
    id: Seq<char>,
    approve: bool,
) -> (TxModel, Result<AccessDecisionModel, Failure>) {
    if !t.access_requests.dom().contains(id) {
        (t, Err(Failure::Missing("Access request not found"@)))
    } else {
        let q = t.access_requests[id];
        if q.status != "pending"@ {
            (t, Err(Failure::Conflict("Access request is already decided"@)))
        } else if !approvers.dom().contains(q.group) {
            (t, Err(Failure::Bad("No approver rule for this group"@)))
        } else if !t.groups.dom().contains(q.group) {
            (t, Err(Failure::Bad("Unknown group"@)))
        } else if !t.users.dom().contains(q.user_id) {
            (t, Err(Failure::Missing("Requester not found"@)))
        } else if !t.users[q.user_id].enabled {
            (t, Err(Failure::Bad("Requester is disabled"@)))
        } else if actor.id == t.users[q.user_id].id || !approvers[q.group].contains(actor.username) {
            (t, Err(Failure::Forbidden))
        } else if approve {
            let g = grant_of(t, q);
            let next = AccessRequestModel {
                status: "approved"@,
                decided_at: Some(t.now),
                decided_by: Some(actor.id),
                grant_id: Some(g.id),
                ..q
            };
            (
                audited(
                    TxModel {
                        access_grants: t.access_grants.insert(g.id, g),
                        access_requests: t.access_requests.insert(id, next),
                        ..drawn(t)
                    },
                    actor.id,
                    "access.approve"@,
                    id,
                ),
                Ok(AccessDecisionModel { request: next, grant: Some(g) }),
            )
        } else {
            let next = AccessRequestModel {
                status: "denied"@,
                decided_at: Some(t.now),
                decided_by: Some(actor.id),
                ..q
            };
            (
                audited(
                    TxModel { access_requests: t.access_requests.insert(id, next), ..t },
                    actor.id,
                    "access.deny"@,
                    id,
                ),
                Ok(AccessDecisionModel { request: next, grant: None }),
            )
        }
    }
}

/// What a revocation does.
pub open spec fn access_revoked(
    t: TxModel,
    approvers: Map<Seq<char>, Set<Seq<char>>>,
    actor: UserModel,
    id: Seq<char>,
) -> (TxModel, Result<AccessGrantModel, Failure>) {
    if !t.access_grants.dom().contains(id) {
        (t, Err(Failure::Missing("Access grant not found"@)))
    } else {
        let g = t.access_grants[id];
        if g.revoked_at is Some {
            (t, Err(Failure::Conflict("Access grant is already revoked"@)))
        } else if !actor.admin && !(approvers.dom().contains(g.group) && approvers[g.group].contains(
            actor.username,
        )) {
            (t, Err(Failure::Forbidden))
        } else {
            let next = AccessGrantModel {
                revoked_at: Some(t.now),
                revoked_by: Some(actor.id),
                ..g
            };
            (
                audited(
                    TxModel { access_grants: t.access_grants.insert(id, next), ..t },
                    actor.id,
                    "access.revoke"@,
                    id,
                ),
                Ok(next),
            )
        }
    }
}

impl Core {
    /// The user behind a session asks for a group.
    pub fn request_access(
        &self,
        tx: &mut Tx,
        actor: &User,
        input: &NewAccessRequest,
        rules: &Rules,
    ) -> (r: Result<AccessRequest, Error>)
        ensures
            ({
                let out = access_requested(
                    old(tx)@,
                    self@.config.pam_approvers,
                    actor@,
                    input@,
                    rules@,
                );
                final(tx)@ == out.0 && agrees_with(r, out.1)
            }),
    {
        if let Err(e) = rules.check_name(input.group.as_str()) {
            return Err(e);
        }
        if let Err(e) = validate_reason(input.reason.as_str()) {
            return Err(e);
        }
        if input.ttl < 60 || input.ttl > 86400 {
            return Err(Error::bad("Duration must be 60–86400 seconds"));
        }
        if !actor.enabled {
            return Err(Error::bad("Requester is disabled"));
        }
        if !tx.groups.has(input.group.as_str()) {
            return Err(Error::bad("Unknown group"));
        }
        if !self.config.pam_approvers.has(input.group.as_str()) {
            return Err(Error::bad("No approver rule for this group"));
        }
        let pending = tx.access_requests.keys_where(pick_pending, Ghost(is_pending()));
        if pending.len() >= MAX_PENDING {
            return Err(Error::conflict("Too many pending access requests"));
        }
        let q = AccessRequest {
            id: tx.id(),
            user_id: actor.id.clone(),
            username: actor.username.clone(),
            group: input.group.clone(),
            reason: input.reason.clone(),
            ttl: input.ttl,
            status: "pending".to_owned(),
            created_at: tx.now,
            decided_at: None,
            decided_by: None,
            grant_id: None,
        };
        tx.access_requests.put(q.id.as_str(), q.dup());
        audit(tx, actor.id.as_str(), "access.request", q.id.as_str());
        Ok(q)
    }

    /// An approver, who is not the requester, decides on a request.
    pub fn decide_access(&self, tx: &mut Tx, actor: &User, id: &str, approve: bool) -> (r: Result<
        AccessDecision,
        Error,
    >)
        ensures
            ({
                let out = access_decided(
                    old(tx)@,
                    self@.config.pam_approvers,
                    actor@,
                    id@,
                    approve,
                );
                final(tx)@ == out.0 && agrees_with(r, out.1)
            }),
    {
        let mut q = match tx.access_requests.get(id) {
            None => return Err(Error::missing("Access request not found")),
            Some(q) => q.dup(),
        };
        if !same(q.status.as_str(), "pending") {
            return Err(Error::conflict("Access request is already decided"));
        }
        let approvers = match self.config.pam_approvers.get(q.group.as_str()) {
            None => return Err(Error::bad("No approver rule for this group")),
            Some(n) => n,
        };
        if !tx.groups.has(q.group.as_str()) {
            return Err(Error::bad("Unknown group"));
        }
        let own = match tx.users.get(q.user_id.as_str()) {
            None => return Err(Error::missing("Requester not found")),
            Some(u) => {
                if !u.enabled {
                    return Err(Error::bad("Requester is disabled"));
                }
                same(actor.id.as_str(), u.id.as_str())
            },
        };
        if own || !approvers.contains(actor.username.as_str()) {
            return Err(Error::Forbidden);
        }
        q.decided_at = Some(tx.now);
        q.decided_by = Some(actor.id.clone());
        if approve {
            let g = AccessGrant {
                id: tx.id(),
                user_id: q.user_id.clone(),
                group: q.group.clone(),
                not_before: tx.now,
                expires_at: tx.now.saturating_add(q.ttl),
                request_id: q.id.clone(),
                revoked_at: None,
                revoked_by: None,
            };
            tx.access_grants.put(g.id.as_str(), g.dup());
            q.status = "approved".to_owned();
            q.grant_id = Some(g.id.clone());
            tx.access_requests.put(id, q.dup());
            audit(tx, actor.id.as_str(), "access.approve", id);
            Ok(AccessDecision { request: q, grant: Some(g) })
        } else {
            q.status = "denied".to_owned();
            tx.access_requests.put(id, q.dup());
            audit(tx, actor.id.as_str(), "access.deny", id);
            Ok(AccessDecision { request: q, grant: None })
        }
    }

    pub fn revoke_access(&self, tx: &mut Tx, actor: &User, id: &str) -> (r: Result<
        AccessGrant,
        Error,
    >)
        ensures
            ({
                let out = access_revoked(old(tx)@, self@.config.pam_approvers, actor@, id@);
                final(tx)@ == out.0 && agrees_with(r, out.1)
            }),
    {
        let mut g = match tx.access_grants.get(id) {
            None => return Err(Error::missing("Access grant not found")),
            Some(g) => g.dup(),
        };
        if g.revoked_at.is_some() {
            return Err(Error::conflict("Access grant is already revoked"));
        }
        let approver = match self.config.pam_approvers.get(g.group.as_str()) {
            Some(n) => n.contains(actor.username.as_str()),
            None => false,
        };
        if !actor.admin && !approver {
            return Err(Error::Forbidden);
        }
        g.revoked_at = Some(tx.now);
        g.revoked_by = Some(actor.id.clone());
        tx.access_grants.put(id, g.dup());
        audit(tx, actor.id.as_str(), "access.revoke", id);
        Ok(g)
    }
}

/// The moments of the requests, by their keys.
pub open spec fn request_moments(m: Map<Seq<char>, AccessRequestModel>) -> Seq<(u64, Seq<char>)> {
    in_order(m.dom()).map_values(|k: Seq<char>| (m[k].created_at, k))
}

pub open spec fn grant_moments(m: Map<Seq<char>, AccessGrantModel>) -> Seq<(u64, Seq<char>)> {
    in_order(m.dom()).map_values(|k: Seq<char>| (m[k].not_before, k))
}

impl Core {
    /// The requests by their time.
    #[verifier::loop_isolation(false)]
    pub fn list_access_requests(&self, tx: &Tx) -> (r: Vec<AccessRequest>)
        ensures
            views(r@) == timeline(request_moments(tx@.access_requests)).map_values(
                |p: (u64, Seq<char>)| tx@.access_requests[p.1],
            ),
    {
        let keys = tx.access_requests.keys();
        keys.listing();
        let ghost m = tx@.access_requests;
        let ghost all = request_moments(m);
        let n: usize = keys.len();
        let mut order: Vec<Moment> = Vec::new();
        let mut i: usize = 0;
        assert(moments(order@) =~= timeline(all.take(0)));
        while i < n
            invariant
                i <= n,
                moments(order@) == timeline(all.take(i as int)),
                forall|j: int| 0 <= j < order.len() ==> m.dom().contains((#[trigger] moments(order@)[j]).1),
            decreases n - i,
        {
            let key = keys.at(i).as_str();
            assert(m.dom().contains(key@));
            assert(all[i as int] == (m[key@].created_at, key@));
            let ghost was = moments(order@);
            if let Some(q) = tx.access_requests.get(key) {
                enter(&mut order, q.created_at, key);
                proof {
                    assert(all.take(i + 1).drop_last() =~= all.take(i as int));
                    lemma_entered_members(was, (m[key@].created_at, key@));
                    assert(moments(order@).len() == order.len());
                    assert forall|j: int| 0 <= j < order.len() implies m.dom().contains(
                        (#[trigger] moments(order@)[j]).1,
                    ) by {
                        let x = moments(order@)[j];
                        if x != (m[key@].created_at, key@) {
                            let k = was.index_of(x);
                            assert(was[k] == x);
                        }
                    }
                }
            }
            i = i + 1;
        }
        assert(all.take(n as int) =~= all);
        let mut out: Vec<AccessRequest> = Vec::new();
        let ghost want = timeline(all).map_values(|p: (u64, Seq<char>)| m[p.1]);
        let mut k: usize = 0;
        assert(views(out@) =~= want.take(0));
        while k < order.len()
            invariant
                k <= order.len(),
                views(out@) == want.take(k as int),
            decreases order.len() - k,
        {
            assert(moments(order@)[k as int] == (order[k as int].at, order[k as int].id@));
            if let Some(q) = tx.access_requests.get(order[k].id.as_str()) {
                let ghost was = views(out@);
                let x = q.dup();
                let ghost xm = x@;
                out.push(x);
                assert(views(out@) =~= was.push(xm));
                assert(want.take(k + 1) =~= want.take(k as int).push(xm));
            }
            k = k + 1;
        }
        assert(want.take(want.len() as int) =~= want);
        out
    }

    /// The grants by their time.
    #[verifier::loop_isolation(false)]
    pub fn list_access_grants(&self, tx: &Tx) -> (r: Vec<AccessGrant>)
        ensures
            views(r@) == timeline(grant_moments(tx@.access_grants)).map_values(
                |p: (u64, Seq<char>)| tx@.access_grants[p.1],
            ),
    {
        let keys = tx.access_grants.keys();
        keys.listing();
        let ghost m = tx@.access_grants;
        let ghost all = grant_moments(m);
        let n: usize = keys.len();
        let mut order: Vec<Moment> = Vec::new();
        let mut i: usize = 0;
        assert(moments(order@) =~= timeline(all.take(0)));
        while i < n
            invariant
                i <= n,
                moments(order@) == timeline(all.take(i as int)),
                forall|j: int| 0 <= j < order.len() ==> m.dom().contains((#[trigger] moments(order@)[j]).1),
            decreases n - i,
        {
            let key = keys.at(i).as_str();
            assert(m.dom().contains(key@));
            assert(all[i as int] == (m[key@].not_before, key@));
            let ghost was = moments(order@);
            if let Some(q) = tx.access_grants.get(key) {
                enter(&mut order, q.not_before, key);
                proof {
                    assert(all.take(i + 1).drop_last() =~= all.take(i as int));
                    lemma_entered_members(was, (m[key@].not_before, key@));
                    assert(moments(order@).len() == order.len());
                    assert forall|j: int| 0 <= j < order.len() implies m.dom().contains(
                        (#[trigger] moments(order@)[j]).1,
                    ) by {
                        let x = moments(order@)[j];
                        if x != (m[key@].not_before, key@) {
                            let k = was.index_of(x);
                            assert(was[k] == x);
                        }
                    }
                }
            }
            i = i + 1;
        }
        assert(all.take(n as int) =~= all);
        let mut out: Vec<AccessGrant> = Vec::new();
        let ghost want = timeline(all).map_values(|p: (u64, Seq<char>)| m[p.1]);
        let mut k: usize = 0;
        assert(views(out@) =~= want.take(0));
        while k < order.len()
            invariant
                k <= order.len(),
                views(out@) == want.take(k as int),
            decreases order.len() - k,
        {
            assert(moments(order@)[k as int] == (order[k as int].at, order[k as int].id@));
            if let Some(q) = tx.access_grants.get(order[k].id.as_str()) {
                let ghost was = views(out@);
                let x = q.dup();
                let ghost xm = x@;
                out.push(x);
                assert(views(out@) =~= was.push(xm));
                assert(want.take(k + 1) =~= want.take(k as int).push(xm));
            }
            k = k + 1;
        }
        assert(want.take(want.len() as int) =~= want);
        out
    }
}

/// Nobody decides on their own request, and a request is decided once.
pub proof fn requests_are_decided_by_others_once(
    t: TxModel,
    approvers: Map<Seq<char>, Set<Seq<char>>>,
    actor: UserModel,
    id: Seq<char>,
    approve: bool,
    other: UserModel,
    again: bool,
)
    requires
        access_decided(t, approvers, actor, id, approve).1 is Ok,
    ensures
        ({
            let u = access_decided(t, approvers, actor, id, approve).0;
            access_decided(u, approvers, other, id, again) == (
                u,
                Err::<AccessDecisionModel, Failure>(
                    Failure::Conflict("Access request is already decided"@),
                ),
            )
        }),
        actor.id != t.users[t.access_requests[id].user_id].id,
        approvers[t.access_requests[id].group].contains(actor.username),
        t.groups == access_decided(t, approvers, actor, id, approve).0.groups,
{
    reveal_strlit("pending");
    reveal_strlit("approved");
    reveal_strlit("denied");
    assert("approved"@.len() != "pending"@.len());
    assert("denied"@.len() != "pending"@.len());
}

/// An approved request gives its group until its time is over or it is revoked, and no longer.
pub proof fn grants_end(
    t: TxModel,
    approvers: Map<Seq<char>, Set<Seq<char>>>,
    actor: UserModel,
    id: Seq<char>,
    later: u64,
)
    requires
        access_decided(t, approvers, actor, id, true).1 is Ok,
    ensures
        ({
            let d = access_decided(t, approvers, actor, id, true).1->Ok_0;
            let g = d.grant->0;
            &&& d.grant is Some
            &&& g.group == t.access_requests[id].group
            &&& grant_active(g, later) <==> t.now <= later < extended(
                t.now,
                t.access_requests[id].ttl,
            )
        }),
{
}

/// A revoked grant gives nothing at any time.
pub proof fn revoked_grants_give_nothing(
    t: TxModel,
    approvers: Map<Seq<char>, Set<Seq<char>>>,
    actor: UserModel,
    id: Seq<char>,
    now: u64,
)
    requires
        access_revoked(t, approvers, actor, id).1 is Ok,
    ensures
        !grant_active(access_revoked(t, approvers, actor, id).0.access_grants[id], now),
        access_revoked(t, approvers, actor, id).0.groups == t.groups,
{
}

/// Temporary access never touches the durable members of a group: neither a request nor a decision
/// nor a revocation changes any group.
pub proof fn durable_members_stay(
    t: TxModel,
    approvers: Map<Seq<char>, Set<Seq<char>>>,
    actor: UserModel,
    input: NewAccessRequestModel,
    rules: RulesModel,
    id: Seq<char>,
    approve: bool,
)
    ensures
        access_requested(t, approvers, actor, input, rules).0.groups == t.groups,
        access_decided(t, approvers, actor, id, approve).0.groups == t.groups,
        access_revoked(t, approvers, actor, id).0.groups == t.groups,
{
}

/// Whoever is enabled can ask for a group that has approvers, with a reason and for a minute to a day,
/// while there is room; the request waits for a decision and gives nothing yet.
pub proof fn requests_wait_for_a_decision(
    t: TxModel,
    approvers: Map<Seq<char>, Set<Seq<char>>>,
    actor: UserModel,
    input: NewAccessRequestModel,
    rules: RulesModel,
)
    requires
        name_check(rules, input.group) is Ok,
    ensures
        ({
            let out = access_requested(t, approvers, actor, input, rules);
            let q = out.1->Ok_0;
            &&& out.1 is Ok <==> {
                &&& reason_check(input.reason) is Ok
                &&& input.ttl >= 60 && input.ttl <= 86400
                &&& actor.enabled
                &&& t.groups.dom().contains(input.group)
                &&& approvers.dom().contains(input.group)
                &&& pending_count(t.access_requests) < 1000
            }
            &&& out.1 is Ok ==> {
                &&& q.user_id == actor.id && q.username == actor.username
                &&& q.group == input.group && q.reason == input.reason && q.ttl == input.ttl
                &&& q.status == "pending"@ && q.created_at == t.now
                &&& q.decided_at is None && q.decided_by is None && q.grant_id is None
                &&& out.0.access_requests == t.access_requests.insert(q.id, q)
                &&& out.0.audit.last().action == "access.request"@
            }
            &&& out.0.access_grants == t.access_grants
        }),
{
}

/// An approver who is not the requester decides a pending request. Approved, it gives the requester
/// the group for the time that was asked; denied, it gives nothing.
pub proof fn approvers_decide_requests(
    t: TxModel,
    approvers: Map<Seq<char>, Set<Seq<char>>>,
    actor: UserModel,
    id: Seq<char>,
    approve: bool,
)
    requires
        t.access_requests.dom().contains(id),
    ensures
        ({
            let q = t.access_requests[id];
            let out = access_decided(t, approvers, actor, id, approve);
            let d = out.1->Ok_0;
            let next = out.0.access_requests[id];
            &&& out.1 is Ok <==> {
                &&& q.status == "pending"@
                &&& approvers.dom().contains(q.group) && approvers[q.group].contains(actor.username)
                &&& t.groups.dom().contains(q.group)
                &&& t.users.dom().contains(q.user_id) && t.users[q.user_id].enabled
                &&& actor.id != t.users[q.user_id].id
            }
            &&& out.1 is Ok ==> {
                &&& d.request == next
                &&& next.decided_at == Some(t.now) && next.decided_by == Some(actor.id)
                &&& next.user_id == q.user_id && next.group == q.group && next.ttl == q.ttl
                &&& next.status == if approve {
                    "approved"@
                } else {
                    "denied"@
                }
                &&& d.grant is Some <==> approve
                &&& !approve ==> out.0.access_grants == t.access_grants && next.grant_id is None
                    == q.grant_id is None
                &&& approve ==> {
                    let g = d.grant->0;
                    &&& out.0.access_grants == t.access_grants.insert(g.id, g)
                    &&& next.grant_id == Some(g.id)
                    &&& g.user_id == q.user_id && g.group == q.group && g.request_id == q.id
                    &&& g.not_before == t.now
                    &&& t.now + q.ttl <= u64::MAX ==> g.expires_at == t.now + q.ttl
                    &&& g.revoked_at is None
                }
            }
        }),
{
}

/// An approved request makes its user a member of the group, from now until its time is over.
pub proof fn approved_requests_confer_the_group(
    t: TxModel,
    approvers: Map<Seq<char>, Set<Seq<char>>>,
    actor: UserModel,
    id: Seq<char>,
    at: u64,
)
    requires
        access_decided(t, approvers, actor, id, true).1 is Ok,
        t.now <= at,
        at < t.now + t.access_requests[id].ttl,
        at < u64::MAX,
    ensures
        conferred(
            access_decided(t, approvers, actor, id, true).0.access_grants,
            t.access_requests[id].user_id,
            at,
            t.access_requests[id].group,
        ),
{
    let out = access_decided(t, approvers, actor, id, true);
    let g = (out.1->Ok_0).grant->0;
    assert(out.0.access_grants.dom().contains(g.id));
}

/// An administrator, or an approver of its group, revokes a grant, once and from now on.
pub proof fn grants_are_revoked_by_approvers(
    t: TxModel,
    approvers: Map<Seq<char>, Set<Seq<char>>>,
    actor: UserModel,
    id: Seq<char>,
)
    requires
        t.access_grants.dom().contains(id),
    ensures
        ({
            let g = t.access_grants[id];
            let out = access_revoked(t, approvers, actor, id);
            &&& out.1 is Ok <==> g.revoked_at is None && (actor.admin || (approvers.dom().contains(
                g.group,
            ) && approvers[g.group].contains(actor.username)))
            &&& out.1 is Ok ==> out.0.access_grants == t.access_grants.insert(id, out.1->Ok_0)
                && (out.1->Ok_0).revoked_at == Some(t.now) && (out.1->Ok_0).revoked_by == Some(
                actor.id,
            ) && (out.1->Ok_0).user_id == g.user_id && (out.1->Ok_0).expires_at == g.expires_at
                && (out.1->Ok_0).group == g.group
        }),
{
}

/// A reason is one to 280 characters, none of them a control character, and tells no secret.
pub proof fn reasons_are_short_and_harmless(reason: Seq<char>)
    ensures
        reason_check(reason) is Ok <==> {
            &&& reason.len() >= 1 && reason.len() <= 280
            &&& !some_control(reason)
            &&& !contains_text(lower(reason), "password"@)
            &&& !contains_text(lower(reason), "secret"@)
            &&& !contains_text(lower(reason), "bearer "@)
            &&& !contains_text(lower(reason), "private key"@)
            &&& !contains_text(lower(reason), "private_key"@)
            &&& !contains_text(lower(reason), "begin "@)
            &&& !contains_text(reason, "ri_session_"@)
            &&& !contains_text(reason, "ri_agent_"@)
            &&& !contains_text(reason, "ri_client_"@)
            &&& !contains_text(reason, "ri_mail_"@)
            &&& !contains_text(reason, "ri_recovery_"@)
            &&& !contains_text(reason, "ri_portal_"@)
        },
{
}

/// A group is conferred by a standing grant of that user and by nothing else: whoever has no grant of
/// the group, or only ones that ended, is not given it.
pub proof fn only_standing_grants_confer(
    m: Map<Seq<char>, AccessGrantModel>,
    user_id: Seq<char>,
    now: u64,
    g: Seq<char>,
)
    ensures
        (forall|k: Seq<char>| #[trigger]
            m.dom().contains(k) ==> m[k].user_id != user_id || m[k].group != g || m[k].revoked_at is Some
                || now < m[k].not_before || m[k].expires_at <= now)
            ==> !conferred(m, user_id, now, g),
        forall|k: Seq<char>| #[trigger]
            m.dom().contains(k) && m[k].user_id == user_id && m[k].group == g && m[k].revoked_at is None
                && m[k].not_before <= now < m[k].expires_at
                ==> conferred(m, user_id, now, g),
{
}

/// A request is remembered for a week after it was made or decided, and a grant for a week after it
/// ended.
pub proof fn old_requests_are_forgotten(t: TxModel, at: u64, k: Seq<char>)
    requires
        t.access_requests.dom().contains(k) ==> t.access_requests[k].created_at <= u64::MAX - 604800 && (
        t.access_requests[k].decided_at is Some ==> t.access_requests[k].decided_at->0 <= u64::MAX - 604800),
        t.access_grants.dom().contains(k) ==> t.access_grants[k].expires_at <= u64::MAX - 604800 && (
        t.access_grants[k].revoked_at is Some ==> t.access_grants[k].revoked_at->0 <= u64::MAX - 604800),
    ensures
        t.access_requests.dom().contains(k) && t.access_requests[k].status == "pending"@ ==> (without(
            t.access_requests,
            request_over(at),
        ).dom().contains(k) <==> at < t.access_requests[k].created_at + 604800),
        t.access_requests.dom().contains(k) && t.access_requests[k].status != "pending"@
            && t.access_requests[k].decided_at is Some ==> (without(
            t.access_requests,
            request_over(at),
        ).dom().contains(k) <==> at < t.access_requests[k].decided_at->0 + 604800),
        t.access_grants.dom().contains(k) && t.access_grants[k].revoked_at is None ==> (without(
            t.access_grants,
            grant_over(at),
        ).dom().contains(k) <==> at < t.access_grants[k].expires_at + 604800),
        t.access_grants.dom().contains(k) && t.access_grants[k].revoked_at is Some ==> (without(
            t.access_grants,
            grant_over(at),
        ).dom().contains(k) <==> at < t.access_grants[k].revoked_at->0 + 604800),
{
    purges_leave_what_does_not_match(t.access_requests, request_over(at), k);
    purges_leave_what_does_not_match(t.access_grants, grant_over(at), k);
}

/// Requests are listed by when they were made, and grants by when they began.
pub proof fn lists_are_ordered_by_their_times(
    m: Map<Seq<char>, AccessRequestModel>,
    g: Map<Seq<char>, AccessGrantModel>,
    i: int,
)
    ensures
        request_moments(m).len() == in_order(m.dom()).len(),
        grant_moments(g).len() == in_order(g.dom()).len(),
        0 <= i < in_order(m.dom()).len() ==> request_moments(m)[i].1 == in_order(m.dom())[i]
            && request_moments(m)[i].0 == m[in_order(m.dom())[i]].created_at,
        0 <= i < in_order(g.dom()).len() ==> grant_moments(g)[i].1 == in_order(g.dom())[i]
            && grant_moments(g)[i].0 == g[in_order(g.dom())[i]].not_before,
{
}

} // verus!
