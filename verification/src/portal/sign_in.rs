//! Signing a browser in and out: by a terminal, a password or a passkey.
use crate::browser::{BrowserReply, body_model, body_reply};
use crate::engine::{ConfigModel, Core, audit, audited, drawn, extended, next_id};
use crate::error::{Error, Failure, agrees, agrees_with, fails, opt_failure};
use crate::json::{Json, JsonModel, text};
use crate::logout::{SelectionModel, ended_all, queue_session, queued};
use crate::model::{Session, SessionModel, User, UserModel};
use crate::names::in_order;
use crate::outpost::Pending;
use crate::outside::{digest, digest_of};
use crate::passkey::{passkey_removed, user_keys, user_keys_of};
use crate::store::{Tx, TxModel};
use crate::table::{Row, Table, dup_opt, opt_view, views};
use crate::text::{concat, concat3, opt_text, same, texts};
use vstd::prelude::*;
use vstd::string::*;

verus! {

/// A cookie to set.
pub struct Cookie {
    pub name: String,
    pub value: String,
    pub path: String,
    pub max_age: u64,
}

/// What a [`Cookie`] holds.
pub struct CookieModel {
    pub name: Seq<char>,
    pub value: Seq<char>,
    pub path: Seq<char>,
    pub max_age: u64,
}

impl View for Cookie {
    type V = CookieModel;

    open spec fn view(&self) -> CookieModel {
        CookieModel {
            name: self.name@,
            value: self.value@,
            path: self.path@,
            max_age: self.max_age,
        }
    }
}

impl Row for Cookie {
    fn dup(&self) -> (r: Self) {
        Cookie {
            name: self.name.clone(),
            value: self.value.clone(),
            path: self.path.clone(),
            max_age: self.max_age,
        }
    }
}

/// A sign-in that a terminal is to decide on.
pub struct SignIn {
    pub id: String,
    pub code: String,
    /// The digest of the code in its normal form.
    pub code_key: String,
    pub binding_hash: String,
    pub expires_at: u64,
    pub session_id: Option<String>,
    pub denied: bool,
    /// Shown to the terminal that decides.
    pub requested_from: Option<Json>,
}

/// What a [`SignIn`] holds.
pub struct SignInModel {
    pub id: Seq<char>,
    pub code: Seq<char>,
    pub code_key: Seq<char>,
    pub binding_hash: Seq<char>,
    pub expires_at: u64,
    pub session_id: Option<Seq<char>>,
    pub denied: bool,
    pub requested_from: Option<JsonModel>,
}

impl View for SignIn {
    type V = SignInModel;

    open spec fn view(&self) -> SignInModel {
        SignInModel {
            id: self.id@,
            code: self.code@,
            code_key: self.code_key@,
            binding_hash: self.binding_hash@,
            expires_at: self.expires_at,
            session_id: crate::text::opt_text(self.session_id),
            denied: self.denied,
            requested_from: crate::table::opt_view(self.requested_from),
        }
    }
}

impl Row for SignIn {
    fn dup(&self) -> (r: Self) {
        SignIn {
            id: self.id.clone(),
            code: self.code.clone(),
            code_key: self.code_key.clone(),
            binding_hash: self.binding_hash.clone(),
            expires_at: self.expires_at,
            session_id: crate::text::copy_opt(&self.session_id),
            denied: self.denied,
            requested_from: crate::table::dup_opt(&self.requested_from),
        }
    }
}

/// A code as it is shown, and in its normal form.
pub struct UserCode {
    pub text: String,
    pub normalized: String,
}

/// What a [`UserCode`] holds.
pub struct UserCodeModel {
    pub text: Seq<char>,
    pub normalized: Seq<char>,
}

impl View for UserCode {
    type V = UserCodeModel;

    open spec fn view(&self) -> UserCodeModel {
        UserCodeModel {
            text: self.text@,
            normalized: self.normalized@,
        }
    }
}

impl Row for UserCode {
    fn dup(&self) -> (r: Self) {
        UserCode {
            text: self.text.clone(),
            normalized: self.normalized.clone(),
        }
    }
}

/// The store once the sign-ins among `keys` that expired were dropped with their codes.
pub open spec fn sign_ins_dropped(t: TxModel, keys: Seq<Seq<char>>, at: u64) -> TxModel
    decreases keys.len(),
{
    if keys.len() == 0 {
        t
    } else {
        let u = sign_ins_dropped(t, keys.drop_last(), at);
        let k = keys.last();
        if u.portal_requests.dom().contains(k) && u.portal_requests[k].expires_at <= at {
            TxModel {
                portal_codes: u.portal_codes.remove(u.portal_requests[k].code_key),
                portal_requests: u.portal_requests.remove(k),
                ..u
            }
        } else {
            u
        }
    }
}

pub open spec fn portal_cleaned(t: TxModel, at: u64) -> TxModel {
    sign_ins_dropped(t, in_order(t.portal_requests.dom()), at)
}

/// Drops sign-ins that expired.
#[verifier::loop_isolation(false)]
pub fn cleanup(tx: &mut Tx, at: u64)
    ensures
        final(tx)@ == portal_cleaned(old(tx)@, at),
{
    let ghost t0 = tx@;
    let keys = tx.portal_requests.keys();
    let ghost all = in_order(keys@);
    let n: usize = keys.len();
    let mut i: usize = 0;
    assert(all.take(0) =~= Seq::<Seq<char>>::empty());
    while i < n
        invariant
            i <= n,
            tx@ == sign_ins_dropped(t0, all.take(i as int), at),
        decreases n - i,
    {
        proof {
            assert(all.take(i + 1).drop_last() =~= all.take(i as int));
        }
        let key = keys.at(i).as_str();
        let over = match tx.portal_requests.get(key) {
            Some(p) => if p.expires_at <= at {
                Some(p.code_key.clone())
            } else {
                None
            },
            None => None,
        };
        if let Some(code_key) = over {
            tx.portal_codes.delete(code_key.as_str());
            tx.portal_requests.delete(key);
        }
        i = i + 1;
    }
    assert(all.take(n as int) =~= all);
}

/// The first of the drawn codes that is not in use.
pub open spec fn free_code(used: Map<Seq<char>, Seq<char>>, codes: Seq<UserCodeModel>) -> Option<
    UserCodeModel,
>
    decreases codes.len(),
{
    if codes.len() == 0 {
        None
    } else if !used.dom().contains(digest_of(codes[0].normalized)) {
        Some(codes[0])
    } else {
        free_code(used, codes.drop_first())
    }
}

proof fn lemma_free_code(used: Map<Seq<char>, Seq<char>>, codes: Seq<UserCodeModel>, i: int)
    requires
        0 <= i <= codes.len(),
        forall|j: int|
            0 <= j < i ==> used.dom().contains(digest_of((#[trigger] codes[j]).normalized)),
        i < codes.len() ==> !used.dom().contains(digest_of(codes[i].normalized)),
    ensures
        free_code(used, codes) == if i < codes.len() {
            Some(codes[i])
        } else {
            None
        },
    decreases codes.len(),
{
    if codes.len() > 0 && i > 0 {
        let rest = codes.drop_first();
        assert(used.dom().contains(digest_of(codes[0].normalized)));
        assert forall|j: int| 0 <= j < i - 1 implies used.dom().contains(
            digest_of((#[trigger] rest[j]).normalized),
        ) by {
            assert(rest[j] == codes[j + 1]);
        }
        if i < codes.len() {
            assert(rest[i - 1] == codes[i]);
        }
        lemma_free_code(used, rest, i - 1);
    }
}

#[verifier::loop_isolation(false)]
fn find_free(used: &Table<String>, codes: &Vec<UserCode>) -> (r: Option<UserCode>)
    ensures
        opt_view(r) == free_code(used@, views(codes@)),
{
    let ghost all = views(codes@);
    let mut i: usize = 0;
    while i < codes.len()
        invariant
            i <= codes.len(),
            forall|j: int|
                0 <= j < i ==> used@.dom().contains(digest_of((#[trigger] all[j]).normalized)),
        decreases codes.len() - i,
    {
        assert(all[i as int] == codes[i as int]@);
        let key = digest(codes[i].normalized.as_str());
        if !used.has(key.as_str()) {
            proof {
                lemma_free_code(used@, all, i as int);
            }
            return Some(codes[i].dup());
        }
        i = i + 1;
    }
    proof {
        lemma_free_code(used@, all, i as int);
    }
    None
}

pub open spec fn poll_path(base: Seq<char>, id: Seq<char>) -> Seq<char> {
    base + "api/portal/sign-in/"@ + id
}

pub open spec fn portal_cookie(base: Seq<char>, id: Seq<char>, value: Seq<char>, max_age: u64) -> CookieModel {
    CookieModel { name: "riauth_portal"@, value, path: poll_path(base, id), max_age }
}

fn make_cookie(base: &str, id: &str, value: &str, max_age: u64) -> (r: Cookie)
    ensures
        r@ == portal_cookie(base@, id@, value@, max_age),
{
    Cookie {
        name: "riauth_portal".to_owned(),
        value: value.to_owned(),
        path: concat3(base, "api/portal/sign-in/", id),
        max_age,
    }
}

/// What the start of a sign-in does: its code is shown, and the browser is bound to it.
pub open spec fn sign_in_started(
    was: TxModel,
    base: Seq<char>,
    codes: Seq<UserCodeModel>,
    requested_from: Option<JsonModel>,
) -> (TxModel, Result<(SignInModel, CookieModel), Failure>) {
    let t = portal_cleaned(was, was.now);
    if t.portal_requests.dom().len() >= 1000 {
        (was, Err(Failure::Conflict("Too many pending portal sign-ins; try again shortly"@)))
    } else {
        match free_code(t.portal_codes, codes) {
            None => (was, Err(Failure::Internal("No free sign-in code"@))),
            Some(code) => {
                let binding = "ri_portal_"@ + next_id(t);
                let p = SignInModel {
                    id: next_id(drawn(t)),
                    code: code.text,
                    code_key: digest_of(code.normalized),
                    binding_hash: digest_of(binding),
                    expires_at: extended(t.now, 600),
                    session_id: None,
                    denied: false,
                    requested_from,
                };
                (
                    TxModel {
                        portal_codes: t.portal_codes.insert(p.code_key, p.id),
                        portal_requests: t.portal_requests.insert(p.id, p),
                        ..drawn(drawn(t))
                    },
                    Ok((p, portal_cookie(base, p.id, binding, 600))),
                )
            },
        }
    }
}

/// The sign-in that a code stands for. `code_key` is the digest of the code in its normal form.
pub open spec fn sign_in_by_code(t: TxModel, code_key: Seq<char>) -> Result<SignInModel, Failure> {
    if !t.portal_codes.dom().contains(code_key) {
        Err(Failure::Missing("Sign-in code not found"@))
    } else {
        let id = t.portal_codes[code_key];
        if !t.portal_requests.dom().contains(id) || t.portal_requests[id].expires_at <= t.now {
            Err(Failure::Missing("Sign-in code expired"@))
        } else {
            Ok(t.portal_requests[id])
        }
    }
}

/// A sign-in that is still to be decided.
pub open spec fn undecided_sign_in(t: TxModel, code_key: Seq<char>) -> Result<SignInModel, Failure> {
    match sign_in_by_code(t, code_key) {
        Err(f) => Err(f),
        Ok(p) => if p.session_id is Some || p.denied {
            Err(Failure::Conflict("Request already decided"@))
        } else {
            Ok(p)
        },
    }
}

fn find_undecided(tx: &Tx, normalized: &str) -> (r: Result<SignIn, Error>)
    ensures
        agrees_with(r, undecided_sign_in(tx@, digest_of(normalized@))),
{
    let key = digest(normalized);
    let id = match tx.portal_codes.get(key.as_str()) {
        None => return Err(Error::missing("Sign-in code not found")),
        Some(i) => i,
    };
    match tx.portal_requests.get(id.as_str()) {
        None => Err(Error::missing("Sign-in code expired")),
        Some(p) => {
            if p.expires_at <= tx.now {
                Err(Error::missing("Sign-in code expired"))
            } else if p.session_id.is_some() || p.denied {
                Err(Error::conflict("Request already decided"))
            } else {
                Ok(p.dup())
            }
        },
    }
}

/// What a decision of the terminal's session does.
pub open spec fn sign_in_decided(
    t: TxModel,
    session: SessionModel,
    code_key: Seq<char>,
    approve: bool,
) -> (TxModel, Result<(), Failure>) {
    match undecided_sign_in(t, code_key) {
        Err(f) => (t, Err(f)),
        Ok(p) => if approve && t.now >= session.identity.auth_time && t.now
            - session.identity.auth_time > 300 {
            (t, Err(Failure::Forbidden))
        } else {
            let next = SignInModel {
                session_id: if approve {
                    Some(session.id)
                } else {
                    None
                },
                denied: !approve,
                ..p
            };
            (
                audited(
                    TxModel { portal_requests: t.portal_requests.insert(p.id, next), ..t },
                    session.identity.user_id,
                    if approve {
                        "portal.sign_in.approve"@
                    } else {
                        "portal.sign_in.deny"@
                    },
                    p.id,
                ),
                Ok(()),
            )
        },
    }
}

/// How a sign-in stands for the browser that asks.
pub enum Polled {
    Pending,
    Denied(Cookie),
    /// The browser is pointed at this session of this user.
    Approved(Cookie, String, String),
}

/// What a [`Polled`] holds.
pub enum PolledModel {
    Pending,
    Denied(CookieModel),
    Approved(CookieModel, Seq<char>, Seq<char>),
}

impl View for Polled {
    type V = PolledModel;

    open spec fn view(&self) -> PolledModel {
        match *self {
            Polled::Pending => PolledModel::Pending,
            Polled::Denied(c) => PolledModel::Denied(c@),
            Polled::Approved(c, s, u) => PolledModel::Approved(c@, s@, u@),
        }
    }
}

/// The browser that started the sign-in shows its binding.
pub open spec fn bound_sign_in(p: SignInModel, binding: Option<Seq<char>>) -> bool {
    binding is Some && digest_of(binding->0) == p.binding_hash
}

/// What a poll does: a decision is delivered once, to the browser that started the sign-in.
pub open spec fn polled(t: TxModel, base: Seq<char>, id: Seq<char>, binding: Option<Seq<char>>) -> (
    TxModel,
    Result<PolledModel, Failure>,
) {
    if !t.portal_requests.dom().contains(id) || t.portal_requests[id].expires_at <= t.now {
        (t, Err(Failure::Missing("Sign-in expired; start again"@)))
    } else {
        let p = t.portal_requests[id];
        let c = portal_cookie(base, id, ""@, 0);
        let u = TxModel {
            portal_codes: t.portal_codes.remove(p.code_key),
            portal_requests: t.portal_requests.remove(id),
            ..t
        };
        if !bound_sign_in(p, binding) {
            (t, Err(Failure::Unauthorized))
        } else if p.session_id is Some {
            if !t.sessions.dom().contains(p.session_id->0) {
                (t, Err(Failure::Unauthorized))
            } else {
                (
                    u,
                    Ok(
                        PolledModel::Approved(
                            c,
                            p.session_id->0,
                            t.sessions[p.session_id->0].identity.user_id,
                        ),
                    ),
                )
            }
        } else if p.denied {
            (u, Ok(PolledModel::Denied(c)))
        } else {
            (t, Ok(PolledModel::Pending))
        }
    }
}

fn is_bound(p: &SignIn, binding: &Option<String>) -> (r: bool)
    ensures
        r == bound_sign_in(p@, opt_text(*binding)),
{
    match binding {
        None => false,
        Some(b) => {
            let h = digest(b.as_str());
            same(h.as_str(), p.binding_hash.as_str())
        },
    }
}

/// What a cancellation does.
pub open spec fn sign_in_cancelled(t: TxModel, base: Seq<char>, id: Seq<char>, binding: Option<Seq<char>>) -> (
    TxModel,
    Result<CookieModel, Failure>,
) {
    if !t.portal_requests.dom().contains(id) {
        (t, Err(Failure::Missing("Sign-in request ended"@)))
    } else if !bound_sign_in(t.portal_requests[id], binding) {
        (t, Err(Failure::Unauthorized))
    } else {
        (
            TxModel {
                portal_codes: t.portal_codes.remove(t.portal_requests[id].code_key),
                portal_requests: t.portal_requests.remove(id),
                ..t
            },
            Ok(portal_cookie(base, id, ""@, 0)),
        )
    }
}

/// What a sign-out does. `session` is the browser's session and `shared` whether a terminal uses it
/// too; a browser that only leaves a shared session does not end it.
pub open spec fn signed_out(
    t: TxModel,
    cookie: Option<Seq<char>>,
    session: Option<SessionModel>,
    shared: bool,
    browser_only: bool,
) -> (TxModel, bool) {
    let kept = session is Some && browser_only && shared;
    let u = match session {
        Some(s) => if kept {
            t
        } else {
            audited(
                queued(
                    TxModel {
                        sessions: t.sessions.insert(s.id, SessionModel { revoked: true, ..s }),
                        ..t
                    },
                    SelectionModel::Session(s.id),
                ),
                s.identity.user_id,
                "session.revoke"@,
                s.id,
            )
        },
        None => t,
    };
    (
        match cookie {
            Some(c) => TxModel { browser_sessions: u.browser_sessions.remove(digest_of(c)), ..u },
            None => u,
        },
        !kept,
    )
}

impl Core {
    /// Starts a sign-in that a terminal decides on. `codes` are codes drawn at random.
    pub fn portal_sign_in(
        &self,
        tx: &mut Tx,
        base: &str,
        codes: &Vec<UserCode>,
        requested_from: &Option<Json>,
    ) -> (r: Result<(SignIn, Cookie), Error>)
        ensures
            ({
                let out = sign_in_started(
                    old(tx)@,
                    base@,
                    views(codes@),
                    opt_view(*requested_from),
                );
                final(tx)@ == out.0 && match out.1 {
                    Ok(p) => r is Ok && (r->Ok_0).0@ == p.0 && (r->Ok_0).1@ == p.1,
                    Err(f) => fails(r, f),
                }
            }),
    {
        let requests = tx.portal_requests.dup();
        let known = tx.portal_codes.dup();
        let now = tx.now;
        let ghost t0 = tx@;
        cleanup(tx, now);
        proof {
            lemma_cleaning_keeps(t0, in_order(t0.portal_requests.dom()), now);
        }
        let pending = tx.portal_requests.keys();
        if pending.len() >= 1000 {
            tx.portal_requests = requests;
            tx.portal_codes = known;
            return Err(
                Error::conflict("Too many pending portal sign-ins; try again shortly"),
            );
        }
        let code = match find_free(&tx.portal_codes, codes) {
            None => {
                tx.portal_requests = requests;
                tx.portal_codes = known;
                return Err(Error::internal("No free sign-in code"));
            },
            Some(c) => c,
        };
        let binding = tx.random_token("ri_portal_");
        let p = SignIn {
            id: tx.id(),
            code: code.text,
            code_key: digest(code.normalized.as_str()),
            binding_hash: digest(binding.as_str()),
            expires_at: tx.now.saturating_add(600),
            session_id: None,
            denied: false,
            requested_from: dup_opt(requested_from),
        };
        tx.portal_codes.put(p.code_key.as_str(), p.id.clone());
        tx.portal_requests.put(p.id.as_str(), p.dup());
        let cookie = make_cookie(base, p.id.as_str(), binding.as_str(), 600);
        Ok((p, cookie))
    }

    /// What a terminal is shown of the sign-in with this code, and whether it has to authenticate
    /// again before it can approve.
    pub fn portal_request(&self, tx: &Tx, session: &Session, normalized: &str) -> (r: Result<
        (SignIn, bool),
        Error,
    >)
        ensures
            match undecided_sign_in(tx@, digest_of(normalized@)) {
                Err(f) => fails(r, f),
                Ok(p) => r is Ok && (r->Ok_0).0@ == p && (r->Ok_0).1 == (tx@.now
                    >= session@.identity.auth_time && tx@.now - session@.identity.auth_time
                    > self@.config.terminal_warn_seconds),
            },
    {
        match find_undecided(tx, normalized) {
            Err(e) => Err(e),
            Ok(p) => {
                let again = tx.now.saturating_sub(session.identity.auth_time)
                    > self.config.terminal_warn_seconds;
                Ok((p, again))
            },
        }
    }

    /// A terminal decides on the sign-in with this code.
    pub fn portal_decide(&self, tx: &mut Tx, session: &Session, normalized: &str, approve: bool) -> (r: Result<
        (),
        Error,
    >)
        ensures
            ({
                let out = sign_in_decided(
                    old(tx)@,
                    session@,
                    digest_of(normalized@),
                    approve,
                );
                final(tx)@ == out.0 && agrees(r, out.1)
            }),
    {
        let mut p = match find_undecided(tx, normalized) {
            Err(e) => return Err(e),
            Ok(p) => p,
        };
        if approve && tx.now.saturating_sub(session.identity.auth_time) > 300 {
            return Err(Error::Forbidden);
        }
        p.session_id = if approve {
            Some(session.id.clone())
        } else {
            None
        };
        p.denied = !approve;
        let id = p.id.clone();
        tx.portal_requests.put(id.as_str(), p);
        if approve {
            audit(
                tx,
                session.identity.user_id.as_str(),
                "portal.sign_in.approve",
                id.as_str(),
            );
        } else {
            audit(
                tx,
                session.identity.user_id.as_str(),
                "portal.sign_in.deny",
                id.as_str(),
            );
        }
        Ok(())
    }

    /// The browser asks how its sign-in stands.
    pub fn portal_poll(&self, tx: &mut Tx, base: &str, id: &str, binding: &Option<String>) -> (r: Result<
        Polled,
        Error,
    >)
        ensures
            ({
                let out = polled(old(tx)@, base@, id@, opt_text(*binding));
                final(tx)@ == out.0 && agrees_with(r, out.1)
            }),
    {
        let p = match tx.portal_requests.get(id) {
            None => return Err(Error::missing("Sign-in expired; start again")),
            Some(p) => p.dup(),
        };
        if p.expires_at <= tx.now {
            return Err(Error::missing("Sign-in expired; start again"));
        }
        if !is_bound(&p, binding) {
            return Err(Error::Unauthorized);
        }
        if !p.denied && p.session_id.is_none() {
            return Ok(Polled::Pending);
        }
        let c = make_cookie(base, id, "", 0);
        let answer = match &p.session_id {
            Some(sid) => match tx.sessions.get(sid.as_str()) {
                None => return Err(Error::Unauthorized),
                Some(s) => Polled::Approved(c, sid.clone(), s.identity.user_id.clone()),
            },
            None => Polled::Denied(c),
        };
        tx.portal_codes.delete(p.code_key.as_str());
        tx.portal_requests.delete(id);
        Ok(answer)
    }

    pub fn portal_cancel(&self, tx: &mut Tx, base: &str, id: &str, binding: &Option<String>) -> (r: Result<
        Cookie,
        Error,
    >)
        ensures
            ({
                let out = sign_in_cancelled(old(tx)@, base@, id@, opt_text(*binding));
                final(tx)@ == out.0 && agrees_with(r, out.1)
            }),
    {
        let p = match tx.portal_requests.get(id) {
            None => return Err(Error::missing("Sign-in request ended")),
            Some(p) => p.dup(),
        };
        if !is_bound(&p, binding) {
            return Err(Error::Unauthorized);
        }
        tx.portal_codes.delete(p.code_key.as_str());
        tx.portal_requests.delete(id);
        Ok(make_cookie(base, id, "", 0))
    }

    /// Signs the browser out of its session, whether it is `shared` with a terminal or not.
    pub fn portal_sign_out(
        &self,
        tx: &mut Tx,
        cookie: &Option<String>,
        session: &Option<Session>,
        shared: bool,
    ) -> (revoked: bool)
        ensures
            ({
                let out = signed_out(
                    old(tx)@,
                    opt_text(*cookie),
                    opt_view(*session),
                    shared,
                    false,
                );
                final(tx)@ == out.0 && revoked == out.1 && revoked
            }),
    {
        self.portal_sign_out_scoped(tx, cookie, session, shared, false)
    }

    /// Signs the browser out. With `browser_only` a session that a terminal shares goes on there.
    pub fn portal_sign_out_scoped(
        &self,
        tx: &mut Tx,
        cookie: &Option<String>,
        session: &Option<Session>,
        shared: bool,
        browser_only: bool,
    ) -> (revoked: bool)
        ensures
            ({
                let out = signed_out(
                    old(tx)@,
                    opt_text(*cookie),
                    opt_view(*session),
                    shared,
                    browser_only,
                );
                final(tx)@ == out.0 && revoked == out.1
            }),
    {
        let mut revoked = true;
        if let Some(s) = session {
            if browser_only && shared {
                revoked = false;
            } else {
                let mut next = s.dup();
                next.revoked = true;
                tx.sessions.put(s.id.as_str(), next);
                queue_session(tx, s.id.as_str());
                audit(tx, s.identity.user_id.as_str(), "session.revoke", s.id.as_str());
            }
        }
        if let Some(c) = cookie {
            let h = digest(c.as_str());
            tx.browser_sessions.delete(h.as_str());
        }
        revoked
    }
}

proof fn lemma_cleaning_keeps(t: TxModel, keys: Seq<Seq<char>>, at: u64)
    ensures
        sign_ins_dropped(t, keys, at) == (TxModel {
            portal_codes: sign_ins_dropped(t, keys, at).portal_codes,
            portal_requests: sign_ins_dropped(t, keys, at).portal_requests,
            ..t
        }),
    decreases keys.len(),
{
    if keys.len() > 0 {
        lemma_cleaning_keeps(t, keys.drop_last(), at);
    }
}

/// A decision is delivered once: the browser that collected it finds nothing more.
pub proof fn decisions_are_delivered_once(
    t: TxModel,
    base: Seq<char>,
    id: Seq<char>,
    binding: Option<Seq<char>>,
)
    requires
        polled(t, base, id, binding).1 is Ok,
        polled(t, base, id, binding).1->Ok_0 != PolledModel::Pending,
    ensures
        ({
            let u = polled(t, base, id, binding).0;
            polled(u, base, id, binding) == (
                u,
                Err::<PolledModel, Failure>(Failure::Missing("Sign-in expired; start again"@)),
            )
        }),
        bound_sign_in(t.portal_requests[id], binding),
{
}

/// A browser is signed in only by a terminal that approved its code while its authentication was
/// fresh.
pub proof fn approvals_are_fresh(
    t: TxModel,
    session: SessionModel,
    code_key: Seq<char>,
)
    requires
        sign_in_decided(t, session, code_key, true).1 is Ok,
    ensures
        t.now < session.identity.auth_time || t.now - session.identity.auth_time <= 300,
        ({
            let p = undecided_sign_in(t, code_key)->Ok_0;
            sign_in_decided(t, session, code_key, true).0.portal_requests[p.id].session_id == Some(
                session.id,
            )
        }),
{
}

/// Whose account a browser login is pinned to.
pub open spec fn pin_of(session: Option<SessionModel>, reauthenticate: bool) -> Result<
    Option<Seq<char>>,
    Failure,
> {
    if !reauthenticate {
        Ok(None)
    } else {
        match session {
            None => Err(Failure::Unauthorized),
            Some(s) => Ok(Some(s.identity.user_id)),
        }
    }
}

/// A view of an optional text in a result.
pub open spec fn text_agrees(r: Result<Option<String>, Error>, s: Result<Option<Seq<char>>, Failure>) -> bool {
    match s {
        Ok(o) => r is Ok && opt_text(r->Ok_0) == o,
        Err(f) => fails(r, f),
    }
}

pub fn portal_pin(session: &Option<Session>, reauthenticate: bool) -> (r: Result<
    Option<String>,
    Error,
>)
    ensures
        text_agrees(r, pin_of(opt_view(*session), reauthenticate)),
{
    if !reauthenticate {
        return Ok(None);
    }
    match session {
        None => Err(Error::Unauthorized),
        Some(s) => Ok(Some(s.identity.user_id.clone())),
    }
}

pub open spec fn factor_refusal() -> Failure {
    Failure::Reply(
        403,
        "reauthentication_required"@,
        "This browser uses your terminal's sign-in. Sign in here before changing your passkeys."@,
    )
}

/// Whether the browser may change its user's factors: it needs a session of its own.
pub open spec fn factor_session_check(signed_in: bool, shared: bool) -> Result<(), Failure> {
    if !signed_in {
        Err(Failure::Unauthorized)
    } else if shared {
        Err(factor_refusal())
    } else {
        Ok(())
    }
}

pub(crate) fn check_factor_session(signed_in: bool, shared: bool) -> (r: Result<(), Error>)
    ensures
        agrees(r, factor_session_check(signed_in, shared)),
{
    if !signed_in {
        return Err(Error::Unauthorized);
    }
    if shared {
        return Err(
            Error::reply(
                403,
                "reauthentication_required",
                "This browser uses your terminal's sign-in. Sign in here before changing your passkeys.",
            ),
        );
    }
    Ok(())
}

/// What a browser may do with its user's passkeys.
pub struct PasskeyDesk {
    pub can_register: bool,
    pub fresh: bool,
    pub terminal: bool,
    pub mfa: bool,
    pub can_remove: bool,
    pub limit: usize,
}

/// What a [`PasskeyDesk`] holds.
pub struct PasskeyDeskModel {
    pub can_register: bool,
    pub fresh: bool,
    pub terminal: bool,
    pub mfa: bool,
    pub can_remove: bool,
    pub limit: usize,
}

impl View for PasskeyDesk {
    type V = PasskeyDeskModel;

    open spec fn view(&self) -> PasskeyDeskModel {
        PasskeyDeskModel {
            can_register: self.can_register,
            fresh: self.fresh,
            terminal: self.terminal,
            mfa: self.mfa,
            can_remove: self.can_remove,
            limit: self.limit,
        }
    }
}

impl Row for PasskeyDesk {
    fn dup(&self) -> (r: Self) {
        PasskeyDesk {
            can_register: self.can_register,
            fresh: self.fresh,
            terminal: self.terminal,
            mfa: self.mfa,
            can_remove: self.can_remove,
            limit: self.limit,
        }
    }
}

/// A login of a browser: its pin, and once the credentials are checked the answer.
pub open spec fn signed_in_body() -> JsonModel {
    JsonModel::Object(seq![("status"@, JsonModel::Text("signed_in"@))])
}

/// A passkey login that was prepared.
pub struct PasskeyPreparation {
    pub pin: Option<String>,
    pub binding_hash: String,
    pub cookie: Cookie,
}

/// What a [`PasskeyPreparation`] holds.
pub struct PasskeyPreparationModel {
    pub pin: Option<Seq<char>>,
    pub binding_hash: Seq<char>,
    pub cookie: CookieModel,
}

impl View for PasskeyPreparation {
    type V = PasskeyPreparationModel;

    open spec fn view(&self) -> PasskeyPreparationModel {
        PasskeyPreparationModel {
            pin: crate::text::opt_text(self.pin),
            binding_hash: self.binding_hash@,
            cookie: self.cookie@,
        }
    }
}

impl Row for PasskeyPreparation {
    fn dup(&self) -> (r: Self) {
        PasskeyPreparation {
            pin: crate::text::copy_opt(&self.pin),
            binding_hash: self.binding_hash.clone(),
            cookie: self.cookie.dup(),
        }
    }
}

/// What a removal does in the browser of `session`.
pub open spec fn portal_removed(
    t: TxModel,
    config: ConfigModel,
    sso: Option<Seq<char>>,
    user: UserModel,
    session: Option<SessionModel>,
    shared: bool,
    factor: Option<Failure>,
    id: Seq<char>,
) -> (TxModel, Result<(), Failure>) {
    match factor_session_check(session is Some, shared) {
        Err(f) => (t, Err(f)),
        Ok(_) => {
            let out = passkey_removed(t, config, user, session->0, factor, id);
            match out.1 {
                Err(f) => out,
                Ok(_) => (
                    match sso {
                        Some(c) => TxModel {
                            browser_sessions: out.0.browser_sessions.remove(digest_of(c)),
                            ..out.0
                        },
                        None => out.0,
                    },
                    Ok(()),
                ),
            }
        },
    }
}

impl Core {
    /// Answers a password login. `sign_in` checks the credentials of the pinned user, if one is
    /// pinned, and gives the cookies of the session that the browser got. It is not called, and no
    /// credential checked, where the browser has nobody to sign in again.
    pub fn portal_password<F: FnOnce(&Option<String>) -> Result<Vec<String>, Error>>(
        &self,
        session: &Option<Session>,
        reauthenticate: bool,
        sign_in: F,
    ) -> (r: Result<BrowserReply, Error>)
        requires
            forall|pin: &Option<String>|
                pin_of(opt_view(*session), reauthenticate) == Ok::<Option<Seq<char>>, Failure>(
                    opt_text(*pin),
                ) ==> #[trigger] sign_in.requires((pin,)),
        ensures
            match pin_of(opt_view(*session), reauthenticate) {
                Err(f) => fails(r, f),
                Ok(pinned) => exists|pin: &Option<String>, out: Result<Vec<String>, Error>|
                    {
                        &&& #[trigger] sign_in.ensures((pin,), out)
                        &&& opt_text(*pin) == pinned
                        &&& match out {
                            Err(e) => fails(r, e@),
                            Ok(c) => r is Ok && r->Ok_0@ == body_model(
                                signed_in_body(),
                                texts(c@),
                            ),
                        }
                    },
            },
    {
        let pin = match portal_pin(session, reauthenticate) {
            Err(e) => return Err(e),
            Ok(p) => p,
        };
        match sign_in(&pin) {
            Err(e) => Err(e),
            Ok(c) => {
                let body = crate::json::single("status", text("signed_in"));
                Ok(body_reply(body, c))
            },
        }
    }

    /// Prepares a passkey login that is bound to this browser.
    pub fn portal_passkey_start(
        &self,
        tx: &mut Tx,
        base: &str,
        session: &Option<Session>,
        reauthenticate: bool,
    ) -> (r: Result<PasskeyPreparation, Error>)
        ensures
            match pin_of(opt_view(*session), reauthenticate) {
                Err(f) => fails(r, f) && final(tx)@ == old(tx)@,
                Ok(pin) => {
                    let binding = "ri_passkey_bind_"@ + next_id(old(tx)@);
                    final(tx)@ == drawn(old(tx)@) && r is Ok && r->Ok_0@ == (
                    PasskeyPreparationModel {
                        pin,
                        binding_hash: digest_of(binding),
                        cookie: CookieModel {
                            name: "riauth_passkey"@,
                            value: binding,
                            path: base@ + "api/portal/login/passkey/"@,
                            max_age: 300,
                        },
                    })
                },
            },
    {
        let pin = match portal_pin(session, reauthenticate) {
            Err(e) => return Err(e),
            Ok(p) => p,
        };
        let binding = tx.random_token("ri_passkey_bind_");
        let binding_hash = digest(binding.as_str());
        Ok(
            PasskeyPreparation {
                pin,
                binding_hash,
                cookie: Cookie {
                    name: "riauth_passkey".to_owned(),
                    value: binding,
                    path: concat(base, "api/portal/login/passkey/"),
                    max_age: 300,
                },
            },
        )
    }

    /// What the browser of `session` may do with the user's passkeys.
    pub fn portal_passkeys(&self, tx: &Tx, user: &User, session: &Session, shared: bool) -> (r: PasskeyDesk)
        ensures
            ({
                let factor = user@.totp_secret is Some || user@.has_passkeys;
                let mfa = session@.identity.mfa;
                r@ == (PasskeyDeskModel {
                    can_register: !shared && user_keys_of(tx@, user@.id).len() < 16 && (!factor
                        || mfa),
                    fresh: tx@.now < session@.identity.auth_time || tx@.now
                        - session@.identity.auth_time <= self@.config.fresh_seconds,
                    terminal: shared,
                    mfa,
                    can_remove: !shared && mfa,
                    limit: 16,
                })
            }),
    {
        let keys = user_keys(tx, user.id.as_str());
        let factor = user.totp_secret.is_some() || user.has_passkeys;
        let mfa = session.identity.mfa;
        PasskeyDesk {
            can_register: !shared && keys.len() < 16 && (!factor || mfa),
            fresh: tx.now.saturating_sub(session.identity.auth_time) <= self.config.fresh_seconds,
            terminal: shared,
            mfa,
            can_remove: !shared && mfa,
            limit: 16,
        }
    }

    /// Removes a passkey from the browser of `session`, which ends all of the user's sessions.
    pub fn portal_passkey_remove(
        &self,
        tx: &mut Tx,
        sso: &Option<String>,
        user: &User,
        session: &Option<Session>,
        shared: bool,
        factor: &Option<Error>,
        id: &str,
    ) -> (r: Result<(), Error>)
        ensures
            ({
                let out = portal_removed(
                    old(tx)@,
                    self@.config,
                    opt_text(*sso),
                    user@,
                    opt_view(*session),
                    shared,
                    opt_failure(*factor),
                    id@,
                );
                final(tx)@ == out.0 && agrees(r, out.1)
            }),
    {
        if let Err(e) = check_factor_session(session.is_some(), shared) {
            return Err(e);
        }
        let s = match session {
            None => return Err(Error::Unauthorized),
            Some(s) => s,
        };
        if let Err(e) = self.passkey_remove(tx, user, s, factor, id) {
            return Err(e);
        }
        if let Some(c) = sso {
            let h = digest(c.as_str());
            tx.browser_sessions.delete(h.as_str());
        }
        Ok(())
    }
}

/// A sign-in waits ten minutes for a decision, under a code that nobody else waits under, and for the
/// browser that holds its cookie.
pub proof fn sign_ins_wait_for_their_browser(
    t: TxModel,
    base: Seq<char>,
    codes: Seq<UserCodeModel>,
    requested_from: Option<JsonModel>,
)
    requires
        sign_in_started(t, base, codes, requested_from).1 is Ok,
        t.now + 600 <= u64::MAX,
    ensures
        ({
            let out = sign_in_started(t, base, codes, requested_from);
            let p = (out.1->Ok_0).0;
            let c = (out.1->Ok_0).1;
            &&& out.0.portal_requests.dom().contains(p.id) && out.0.portal_requests[p.id] == p
            &&& out.0.portal_codes[p.code_key] == p.id
            &&& p.expires_at == t.now + 600 && p.session_id is None && !p.denied
            &&& p.requested_from == requested_from
            &&& digest_of(c.value) == p.binding_hash
            &&& c.name == "riauth_portal"@ && c.max_age == 600
            &&& c.path == base + "api/portal/sign-in/"@ + p.id
            &&& exists|i: int|
                0 <= i < codes.len() && p.code == (#[trigger] codes[i]).text && p.code_key
                    == digest_of(codes[i].normalized)
            &&& !portal_cleaned(t, t.now).portal_codes.dom().contains(p.code_key)
        }),
{
    lemma_the_free_code(portal_cleaned(t, t.now).portal_codes, codes);
    lemma_dropping_keeps_the_time(t, in_order(t.portal_requests.dom()), t.now);
}

proof fn lemma_dropping_keeps_the_time(t: TxModel, keys: Seq<Seq<char>>, at: u64)
    ensures
        sign_ins_dropped(t, keys, at).now == t.now,
    decreases keys.len(),
{
    if keys.len() > 0 {
        lemma_dropping_keeps_the_time(t, keys.drop_last(), at);
    }
}

proof fn lemma_the_free_code(used: Map<Seq<char>, Seq<char>>, codes: Seq<UserCodeModel>)
    requires
        free_code(used, codes) is Some,
    ensures
        !used.dom().contains(digest_of((free_code(used, codes)->0).normalized)),
        exists|i: int| 0 <= i < codes.len() && #[trigger] codes[i] == free_code(used, codes)->0,
    decreases codes.len(),
{
    if used.dom().contains(digest_of(codes[0].normalized)) {
        let r = codes.drop_first();
        lemma_the_free_code(used, r);
        let i = choose|i: int| 0 <= i < r.len() && #[trigger] r[i] == free_code(used, r)->0;
        assert(codes[i + 1] == r[i]);
    } else {
        assert(codes[0] == free_code(used, codes)->0);
    }
}

/// The browser that waits for a sign-in is told how it was decided: it gets the session of whoever
/// approved it, or learns that it was denied, and until then that it is pending.
pub proof fn waiting_browsers_are_told_the_decision(
    t: TxModel,
    base: Seq<char>,
    id: Seq<char>,
    binding: Seq<char>,
)
    requires
        t.portal_requests.dom().contains(id),
        t.portal_requests[id].expires_at > t.now,
        t.portal_requests[id].binding_hash == digest_of(binding),
        t.portal_requests[id].session_id is Some ==> t.sessions.dom().contains(
            t.portal_requests[id].session_id->0,
        ),
    ensures
        ({
            let p = t.portal_requests[id];
            let out = polled(t, base, id, Some(binding));
            &&& out.1 is Ok
            &&& p.session_id is Some ==> (out.1->Ok_0 matches PolledModel::Approved(c, s, user) && s
                == p.session_id->0 && user == t.sessions[s].identity.user_id && c.max_age == 0)
            &&& p.session_id is None && p.denied ==> out.1->Ok_0 is Denied
            &&& p.session_id is None && !p.denied ==> out.1->Ok_0 is Pending && out.0 == t
            &&& p.session_id is Some || p.denied ==> !out.0.portal_requests.dom().contains(id)
                && !out.0.portal_codes.dom().contains(p.code_key)
            &&& out.0.sessions == t.sessions
        }),
{
}

/// A decision on a waiting sign-in is kept with it: whoever approves lends their session, whoever
/// denies lends nothing. A denial needs no fresh login.
pub proof fn waiting_sign_ins_can_be_decided(
    t: TxModel,
    session: SessionModel,
    code_key: Seq<char>,
    approve: bool,
)
    requires
        t.portal_codes.dom().contains(code_key),
        t.portal_requests.dom().contains(t.portal_codes[code_key]),
        t.portal_requests[t.portal_codes[code_key]].expires_at > t.now,
        t.portal_requests[t.portal_codes[code_key]].id == t.portal_codes[code_key],
        session.identity.auth_time <= t.now,
    ensures
        ({
            let p = t.portal_requests[t.portal_codes[code_key]];
            let out = sign_in_decided(t, session, code_key, approve);
            let next = out.0.portal_requests[p.id];
            &&& out.1 is Ok <==> p.session_id is None && !p.denied && (!approve || t.now
                - session.identity.auth_time <= 300)
            &&& out.1 is Ok && approve ==> next.session_id == Some(session.id) && !next.denied
            &&& out.1 is Ok && !approve ==> next.session_id is None && next.denied
            &&& out.1 is Ok ==> next.binding_hash == p.binding_hash && next.expires_at == p.expires_at
                && next.code_key == p.code_key
            &&& out.1 is Err ==> out.0 == t
        }),
{
}

/// Who signs out here ends the session, unless it is shared with others and only this browser is to
/// forget it; either way this browser forgets it.
pub proof fn signing_out_forgets_the_browser(
    t: TxModel,
    cookie: Seq<char>,
    s: SessionModel,
    shared: bool,
    browser_only: bool,
)
    ensures
        ({
            let out = signed_out(t, Some(cookie), Some(s), shared, browser_only);
            &&& !out.0.browser_sessions.dom().contains(digest_of(cookie))
            &&& out.1 == !(browser_only && shared)
            &&& out.1 ==> out.0.sessions.dom().contains(s.id) && out.0.sessions[s.id].revoked
            &&& !out.1 ==> out.0.sessions == t.sessions
        }),
{
    lemma_ending_keeps_sessions(
        TxModel {
            sessions: t.sessions.insert(s.id, SessionModel { revoked: true, ..s }),
            ..t
        },
        in_order(t.rp_sessions.dom()),
        SelectionModel::Session(s.id),
    );
}

proof fn lemma_ending_keeps_sessions(t: TxModel, keys: Seq<Seq<char>>, s: SelectionModel)
    ensures
        ended_all(t, keys, s).sessions == t.sessions,
    decreases keys.len(),
{
    if keys.len() > 0 {
        lemma_ending_keeps_sessions(t, keys.drop_last(), s);
    }
}

/// A sign-in is cancelled by the browser that began it, and is gone with its code; nobody else can.
pub proof fn sign_ins_are_cancelled_by_their_browser(
    t: TxModel,
    base: Seq<char>,
    id: Seq<char>,
    binding: Option<Seq<char>>,
)
    ensures
        ({
            let (u, r) = sign_in_cancelled(t, base, id, binding);
            &&& r is Ok <==> t.portal_requests.dom().contains(id) && binding is Some && digest_of(binding->0)
                == t.portal_requests[id].binding_hash
            &&& r is Err ==> u == t
            &&& r is Ok ==> !u.portal_requests.dom().contains(id) && !u.portal_codes.dom().contains(
                t.portal_requests[id].code_key,
            )
            &&& r matches Ok(c) ==> c.max_age == 0 && c.value == ""@ && c.name == "riauth_portal"@
        }),
{
}

/// Sign-ins that are over are dropped with their codes; those that are not stay.
pub proof fn old_sign_ins_are_dropped(t: TxModel, keys: Seq<Seq<char>>, at: u64, k: Seq<char>)
    ensures
        ({
            let u = sign_ins_dropped(t, keys, at);
            &&& t.portal_requests.dom().contains(k) && t.portal_requests[k].expires_at > at
                ==> u.portal_requests.dom().contains(k)
            &&& keys.contains(k) && u.portal_requests.dom().contains(k) ==> u.portal_requests[k].expires_at > at
            &&& u.portal_requests.dom().contains(k) ==> t.portal_requests.dom().contains(k)
                && u.portal_requests[k] == t.portal_requests[k]
        }),
    decreases keys.len(),
{
    if keys.len() > 0 {
        let d = keys.drop_last();
        old_sign_ins_are_dropped(t, d, at, k);
        old_sign_ins_are_dropped(t, d, at, keys.last());
        if keys.contains(k) && k != keys.last() {
            let i = keys.index_of(k);
            assert(d[i] == k);
        }
    }
}

/// A passkey is removed from the portal in the browser's own session, and the browser has to sign in
/// again.
pub proof fn removing_browsers_sign_in_again(
    t: TxModel,
    config: ConfigModel,
    cookie: Seq<char>,
    user: UserModel,
    session: Option<SessionModel>,
    shared: bool,
    factor: Option<Failure>,
    id: Seq<char>,
)
    ensures
        ({
            let (u, r) = portal_removed(t, config, Some(cookie), user, session, shared, factor, id);
            &&& r is Ok ==> session is Some && !shared
            &&& r is Ok ==> !u.browser_sessions.dom().contains(digest_of(cookie))
            &&& r is Ok ==> passkey_removed(t, config, user, session->0, factor, id).1 is Ok
            &&& session is None ==> r == Err::<(), Failure>(Failure::Unauthorized) && u == t
        }),
{
}

/// Signing in again is for the account that is signed in; a first sign-in is for any.
pub proof fn signing_in_again_keeps_the_account(session: Option<SessionModel>, reauthenticate: bool)
    ensures
        !reauthenticate ==> pin_of(session, reauthenticate) == Ok::<Option<Seq<char>>, Failure>(None),
        reauthenticate && session is Some ==> pin_of(session, reauthenticate) == Ok::<Option<Seq<char>>, Failure>(
            Some((session->0).identity.user_id),
        ),
        reauthenticate && session is None ==> pin_of(session, reauthenticate) == Err::<
            Option<Seq<char>>,
            Failure,
        >(Failure::Unauthorized),
{
}

/// A code leads to the sign-in that it was drawn for, while that waits.
pub proof fn codes_lead_to_their_sign_in(t: TxModel, code_key: Seq<char>)
    ensures
        sign_in_by_code(t, code_key) is Ok <==> t.portal_codes.dom().contains(code_key)
            && t.portal_requests.dom().contains(t.portal_codes[code_key])
            && t.portal_requests[t.portal_codes[code_key]].expires_at > t.now,
        sign_in_by_code(t, code_key) matches Ok(p) ==> p == t.portal_requests[t.portal_codes[code_key]],
{
}

/// The code that is taken is the first that nobody uses.
pub proof fn unused_codes_are_taken(used: Map<Seq<char>, Seq<char>>, codes: Seq<UserCodeModel>)
    ensures
        free_code(used, codes) matches Some(c) ==> codes.contains(c) && !used.dom().contains(
            digest_of(c.normalized),
        ),
        free_code(used, codes) is None <==> forall|i: int|
            0 <= i < codes.len() ==> used.dom().contains(digest_of((#[trigger] codes[i]).normalized)),
    decreases codes.len(),
{
    if codes.len() > 0 {
        let d = codes.drop_first();
        unused_codes_are_taken(used, d);
        if used.dom().contains(digest_of(codes[0].normalized)) {
            if let Some(c) = free_code(used, d) {
                assert(codes[d.index_of(c) + 1] == c);
            }
            if free_code(used, d) is None {
                assert forall|i: int| 0 <= i < codes.len() implies used.dom().contains(
                    digest_of((#[trigger] codes[i]).normalized),
                ) by {
                    if i > 0 {
                        assert(d[i - 1] == codes[i]);
                    }
                }
            }
            if forall|i: int|
                0 <= i < codes.len() ==> used.dom().contains(digest_of((#[trigger] codes[i]).normalized)) {
                assert forall|i: int| 0 <= i < d.len() implies used.dom().contains(
                    digest_of((#[trigger] d[i]).normalized),
                ) by {
                    assert(d[i] == codes[i + 1]);
                }
            }
        } else {
            assert(codes.contains(codes[0]));
        }
    }
}

} // verus!
