//! Logins with a passkey.
use crate::engine::{ConfigModel, Core, audit, audited, drawn, extended, next_id};
use crate::error::{Error, Failure, agrees, agrees_with, copy_error, fails};
use crate::model::{AuthenticationTransactionModel, Identity, IdentityModel, Session, SessionModel, User, UserModel, user_view};
use crate::mtls::{named_user, user_by_name};
use crate::oidc::authorize::{reject_embedded_stage, stage_check};
use crate::outside::{digest, digest_of};
use crate::passkey::{Authentication, AuthenticationModel, Credential, CredentialModel, PasskeyOutcome, PasskeyOutcomeModel, credential_key, credential_key_of, handle, handle_of, user_keys, user_keys_of};
use crate::radius::requests::same_bytes;
use crate::rules::{Rules, RulesModel, name_check};
use crate::store::{Tx, TxModel};
use crate::table::{Row, opt_view, views};
use crate::text::{copy_opt, opt_is, opt_text, same, texts};
use crate::mtls::{LoginReply, LoginReplyModel};
use vstd::prelude::*;
use vstd::string::*;

verus! {

/// The transaction that a login is to complete, if it can still be.
pub open spec fn open_transaction(t: TxModel, token: Seq<char>) -> Result<
    AuthenticationTransactionModel,
    Failure,
> {
    let key = digest_of(token);
    if t.authentication.dom().contains(key) && t.authentication[key].expires_at > t.now
        && t.authentication[key].authenticated_session is None {
        match stage_check(t.authentication[key]) {
            Err(f) => Err(f),
            Ok(_) => Ok(t.authentication[key]),
        }
    } else {
        Err(Failure::Bad("Authentication transaction expired or used"@))
    }
}

/// The enabled account of this name.
pub open spec fn enabled_user(t: TxModel, username: Seq<char>) -> Option<UserModel> {
    match named_user(t, username) {
        Some(u) => if u.enabled {
            Some(u)
        } else {
            None
        },
        None => None,
    }
}

fn find_enabled(tx: &Tx, username: &str) -> (r: Option<User>)
    ensures
        opt_view(r) == enabled_user(tx@, username@),
{
    match user_by_name(tx, username) {
        Ok(u) => if u.enabled {
            Some(u)
        } else {
            None
        },
        Err(_) => None,
    }
}

/// The keys that a login of this name can use. A name without keys gets a decoy.
pub fn passkey_login_keys(tx: &Tx, username: &str) -> (r: Vec<Credential>)
    ensures
        views(r@) == match enabled_user(tx@, username@) {
            Some(u) => user_keys_of(tx@, u.id),
            None => Seq::empty(),
        },
{
    match find_enabled(tx, username) {
        Some(u) => user_keys(tx, u.id.as_str()),
        None => {
            let out: Vec<Credential> = Vec::new();
            assert(views(out@) =~= Seq::<CredentialModel>::empty());
            out
        },
    }
}

/// What the start of a login does. `state` is the private state of a ceremony with the user's keys;
/// a decoy has none.
pub open spec fn login_started(
    t: TxModel,
    username: Seq<char>,
    transaction: Option<Seq<char>>,
    state: Option<Seq<char>>,
    rules: RulesModel,
) -> (TxModel, Result<Seq<char>, Failure>) {
    match name_check(rules, username) {
        Err(f) => (t, Err(f)),
        Ok(_) => if transaction is Some && open_transaction(t, transaction->0) is Err {
            (t, Err(open_transaction(t, transaction->0)->Err_0))
        } else {
            let user = enabled_user(t, username);
            let ceremony = "ri_passkey_auth_"@ + next_id(t);
            (
                TxModel {
                    passkey_authentication: t.passkey_authentication.insert(
                        digest_of(ceremony),
                        AuthenticationModel {
                            user_id: match user {
                                Some(u) => Some(u.id),
                                None => None,
                            },
                            epoch: match user {
                                Some(u) => u.epoch,
                                None => 0,
                            },
                            expires_at: extended(t.now, 300),
                            state,
                            transaction,
                            interaction: None,
                            binding_hash: None,
                            discoverable: None,
                        },
                    ),
                    ..drawn(t)
                },
                Ok(ceremony),
            )
        },
    }
}

impl Core {
    /// Starts a login; the ceremony's name.
    pub fn passkey_login_start_with(
        &self,
        tx: &mut Tx,
        username: &str,
        transaction: &Option<String>,
        state: &Option<String>,
        rules: &Rules,
    ) -> (r: Result<String, Error>)
        ensures
            ({
                let out = login_started(
                    old(tx)@,
                    username@,
                    opt_text(*transaction),
                    opt_text(*state),
                    rules@,
                );
                final(tx)@ == out.0 && agrees_with(r, out.1)
            }),
    {
        if let Err(e) = rules.check_name(username) {
            return Err(e);
        }
        if let Some(token) = transaction {
            let key = digest(token.as_str());
            match tx.authentication.get(key.as_str()) {
                None => {
                    return Err(Error::bad("Authentication transaction expired or used"));
                },
                Some(a) => {
                    if a.expires_at <= tx.now || a.authenticated_session.is_some() {
                        return Err(Error::bad("Authentication transaction expired or used"));
                    }
                    if let Err(e) = reject_embedded_stage(a) {
                        return Err(e);
                    }
                },
            }
        }
        let user = find_enabled(tx, username);
        let ceremony = tx.random_token("ri_passkey_auth_");
        let key = digest(ceremony.as_str());
        let record = Authentication {
            user_id: match &user {
                Some(u) => Some(u.id.clone()),
                None => None,
            },
            epoch: match &user {
                Some(u) => u.epoch,
                None => 0,
            },
            expires_at: tx.now.saturating_add(300),
            state: copy_opt(state),
            transaction: copy_opt(transaction),
            interaction: None,
            binding_hash: None,
            discoverable: None,
        };
        tx.passkey_authentication.put(key.as_str(), record);
        Ok(ceremony)
    }
}

/// The passkey after a use, if the response fits the user and their key: the counter never goes
/// back.
pub open spec fn used_passkey(t: TxModel, user_id: Seq<char>, o: PasskeyOutcomeModel) -> Option<
    CredentialModel,
> {
    let id = credential_key_of(o.raw_id);
    if !o.verified || !o.user_verified || !t.passkeys.dom().contains(id) || t.passkeys[id].user_id
        != user_id || ((o.counter != 0 || t.passkeys[id].counter != 0) && o.counter
        <= t.passkeys[id].counter) || o.key is None {
        None
    } else {
        Some(CredentialModel { counter: o.counter, key: o.key->0, ..t.passkeys[id] })
    }
}

fn use_passkey(tx: &Tx, user_id: &str, o: &PasskeyOutcome) -> (r: Option<Credential>)
    ensures
        opt_view(r) == used_passkey(tx@, user_id@, o@),
{
    if !o.verified || !o.user_verified {
        return None;
    }
    let id = credential_key(&o.raw_id);
    let c = match tx.passkeys.get(id.as_str()) {
        None => return None,
        Some(c) => c,
    };
    if !same(c.user_id.as_str(), user_id) || ((o.counter != 0 || c.counter != 0) && o.counter
        <= c.counter) {
        return None;
    }
    match &o.key {
        None => None,
        Some(k) => {
            let mut next = c.dup();
            next.counter = o.counter;
            next.key = k.clone();
            Some(next)
        },
    }
}

/// The user that a ceremony was started for.
pub open spec fn ceremony_user(t: TxModel, p: AuthenticationModel) -> Option<UserModel> {
    if p.user_id is Some && t.users.dom().contains(p.user_id->0) && t.users[p.user_id->0].enabled
        && t.users[p.user_id->0].epoch == p.epoch {
        Some(t.users[p.user_id->0])
    } else {
        None
    }
}

fn find_ceremony_user(tx: &Tx, p: &Authentication) -> (r: Option<User>)
    ensures
        opt_view(r) == ceremony_user(tx@, p@),
{
    match &p.user_id {
        None => None,
        Some(id) => match tx.users.get(id.as_str()) {
            None => None,
            Some(u) => if u.enabled && u.epoch == p.epoch {
                Some(u.dup())
            } else {
                None
            },
        },
    }
}

/// The response names the user, where it names one.
pub open spec fn handle_fits(o: PasskeyOutcomeModel, user_id: Seq<char>) -> bool {
    !o.has_handle || o.handle == handle_of(user_id)
}

fn is_handle_fit(o: &PasskeyOutcome, user_id: &str) -> (r: bool)
    ensures
        r == handle_fits(o@, user_id@),
{
    if !o.has_handle {
        return true;
    }
    let h = handle(user_id);
    same_bytes(&o.handle, &h)
}

/// The transaction that the login completes: it is open, and for this user if for one.
pub open spec fn completed_transaction(t: TxModel, token: Option<Seq<char>>, user_id: Seq<char>) -> Result<
    (),
    Failure,
> {
    match token {
        None => Ok(()),
        Some(tk) => {
            let key = digest_of(tk);
            if t.authentication.dom().contains(key) && t.authentication[key].expires_at > t.now
                && t.authentication[key].authenticated_session is None && (
            t.authentication[key].user_id is None || t.authentication[key].user_id == Some(user_id)) {
                stage_check(t.authentication[key])
            } else {
                Err(Failure::Forbidden)
            }
        },
    }
}

fn check_transaction(tx: &Tx, token: &Option<String>, user_id: &str) -> (r: Result<(), Error>)
    ensures
        agrees(r, completed_transaction(tx@, opt_text(*token), user_id@)),
{
    let tk = match token {
        None => return Ok(()),
        Some(t) => t,
    };
    let key = digest(tk.as_str());
    match tx.authentication.get(key.as_str()) {
        None => Err(Error::Forbidden),
        Some(a) => {
            if a.expires_at <= tx.now || a.authenticated_session.is_some() || (a.user_id.is_some()
                && !opt_is(&a.user_id, user_id)) {
                return Err(Error::Forbidden);
            }
            reject_embedded_stage(a)
        },
    }
}

/// Whether a response completes a login, and with which passkey.
pub open spec fn login_verified(t: TxModel, p: AuthenticationModel, o: PasskeyOutcomeModel) -> Result<
    (UserModel, CredentialModel),
    Failure,
> {
    let user = ceremony_user(t, p);
    if p.interaction is Some || user is None || !handle_fits(o, (user->0).id) {
        Err(Failure::Unauthorized)
    } else if o.site is Some {
        Err(o.site->0)
    } else if p.state is None || used_passkey(t, (user->0).id, o) is None {
        Err(Failure::Unauthorized)
    } else {
        match completed_transaction(t, p.transaction, (user->0).id) {
            Err(f) => Err(f),
            Ok(_) => Ok((user->0, used_passkey(t, (user->0).id, o)->0)),
        }
    }
}

/// The session that a passkey login starts.
pub open spec fn passkey_session(t: TxModel, config: ConfigModel, user: UserModel) -> SessionModel {
    let sid = next_id(drawn(t));
    SessionModel {
        id: sid,
        token_hash: digest_of("ri_session_"@ + next_id(t)),
        identity: IdentityModel {
            amr: seq!["webauthn"@, "mfa"@],
            source: None,
            user_id: user.id,
            epoch: user.epoch,
            mfa: true,
            auth_time: t.now,
            session_id: sid,
        },
        expires_at: extended(t.now, config.session_ttl),
        revoked: false,
    }
}

/// What the end of a login does. Once the ceremony is found it is used up, and a failure is noted.
pub open spec fn login_finished(
    was: TxModel,
    config: ConfigModel,
    ceremony: Seq<char>,
    o: PasskeyOutcomeModel,
) -> (TxModel, Result<LoginReplyModel, Failure>) {
    let key = digest_of(ceremony);
    if !was.passkey_authentication.dom().contains(key) || was.passkey_authentication[key].expires_at
        <= was.now {
        (was, Err(Failure::Unauthorized))
    } else {
        let p = was.passkey_authentication[key];
        let t = TxModel { passkey_authentication: was.passkey_authentication.remove(key), ..was };
        match login_verified(t, p, o) {
            Err(f) => if f is Internal {
                (was, Err(f))
            } else {
                (audited(t, "anonymous"@, "passkey.login_failed"@, "passkey"@), Err(f))
            },
            Ok((user, c)) => {
                let s = passkey_session(t, config, user);
                let u = drawn(drawn(t));
                (
                    audited(
                        TxModel {
                            sessions: u.sessions.insert(s.id, s),
                            session_tokens: u.session_tokens.insert(s.token_hash, s.id),
                            authentication: match p.transaction {
                                Some(tk) => u.authentication.insert(
                                    digest_of(tk),
                                    AuthenticationTransactionModel {
                                        authenticated_session: Some(s.id),
                                        ..u.authentication[digest_of(tk)]
                                    },
                                ),
                                None => u.authentication,
                            },
                            passkeys: u.passkeys.insert(c.id, c),
                            ..u
                        },
                        user.id,
                        "passkey.login"@,
                        c.id,
                    ),
                    Ok(
                        LoginReplyModel {
                            session_token: "ri_session_"@ + next_id(t),
                            expires_at: s.expires_at,
                            user: user_view(user),
                        },
                    ),
                )
            },
        }
    }
}

impl Core {
    fn verify_login(&self, tx: &Tx, p: &Authentication, o: &PasskeyOutcome) -> (r: Result<
        (User, Credential),
        Error,
    >)
        ensures
            match login_verified(tx@, p@, o@) {
                Ok(x) => r is Ok && (r->Ok_0).0@ == x.0 && (r->Ok_0).1@ == x.1,
                Err(f) => fails(r, f),
            },
    {
        if p.interaction.is_some() {
            return Err(Error::Unauthorized);
        }
        let user = match find_ceremony_user(tx, p) {
            None => return Err(Error::Unauthorized),
            Some(u) => u,
        };
        if !is_handle_fit(o, user.id.as_str()) {
            return Err(Error::Unauthorized);
        }
        if let Some(e) = &o.site {
            return Err(copy_error(e));
        }
        if p.state.is_none() {
            return Err(Error::Unauthorized);
        }
        let c = match use_passkey(tx, user.id.as_str(), o) {
            None => return Err(Error::Unauthorized),
            Some(c) => c,
        };
        if let Err(e) = check_transaction(tx, &p.transaction, user.id.as_str()) {
            return Err(e);
        }
        Ok((user, c))
    }

    /// Ends a login with what the WebAuthn library made of the response.
    pub fn passkey_login_finish_with(&self, tx: &mut Tx, ceremony: &str, outcome: &PasskeyOutcome) -> (r: Result<
        LoginReply,
        Error,
    >)
        ensures
            ({
                let out = login_finished(old(tx)@, self@.config, ceremony@, outcome@);
                final(tx)@ == out.0 && agrees_with(r, out.1)
            }),
    {
        let key = digest(ceremony);
        let p = match tx.passkey_authentication.get(key.as_str()) {
            None => return Err(Error::Unauthorized),
            Some(p) => {
                if p.expires_at <= tx.now {
                    return Err(Error::Unauthorized);
                }
                p.dup()
            },
        };
        tx.passkey_authentication.delete(key.as_str());
        let (user, c) = match self.verify_login(tx, &p, outcome) {
            Err(e) => {
                if let Error::Internal(_) = &e {
                    tx.passkey_authentication.put(key.as_str(), p);
                    assert(tx@.passkey_authentication =~= old(tx)@.passkey_authentication);
                    return Err(e);
                }
                audit(tx, "anonymous", "passkey.login_failed", "passkey");
                return Err(e);
            },
            Ok(x) => x,
        };
        let token = tx.random_token("ri_session_");
        let sid = tx.id();
        let token_hash = digest(token.as_str());
        let mut amr: Vec<String> = Vec::new();
        amr.push("webauthn".to_owned());
        amr.push("mfa".to_owned());
        assert(texts(amr@) =~= seq!["webauthn"@, "mfa"@]);
        let expires_at = tx.now.saturating_add(self.config.session_ttl);
        let session = Session {
            id: sid.clone(),
            token_hash: token_hash.clone(),
            identity: Identity {
                amr,
                source: None,
                user_id: user.id.clone(),
                epoch: user.epoch,
                mfa: true,
                auth_time: tx.now,
                session_id: sid.clone(),
            },
            expires_at,
            revoked: false,
        };
        tx.sessions.put(sid.as_str(), session);
        tx.session_tokens.put(token_hash.as_str(), sid.clone());
        if let Some(tk) = &p.transaction {
            let k = digest(tk.as_str());
            let found = match tx.authentication.get(k.as_str()) {
                Some(a) => Some(a.dup()),
                None => None,
            };
            if let Some(a) = found {
                let mut a = a;
                a.authenticated_session = Some(sid.clone());
                tx.authentication.put(k.as_str(), a);
            }
        }
        let cid = c.id.clone();
        tx.passkeys.put(cid.as_str(), c);
        audit(tx, user.id.as_str(), "passkey.login", cid.as_str());
        Ok(LoginReply { session_token: token, expires_at, user: user.shown() })
    }
}

/// A ceremony ends with its first response, unless the server could not look at it: a second one is
/// refused and changes nothing.
pub proof fn ceremonies_are_used_once(
    t: TxModel,
    config: ConfigModel,
    ceremony: Seq<char>,
    o: PasskeyOutcomeModel,
    second: PasskeyOutcomeModel,
)
    requires
        !(login_finished(t, config, ceremony, o).1 matches Err(Failure::Internal(_))),
    ensures
        t.passkey_authentication.dom().contains(digest_of(ceremony))
            && t.passkey_authentication[digest_of(ceremony)].expires_at > t.now ==> ({
            let u = login_finished(t, config, ceremony, o).0;
            login_finished(u, config, ceremony, second) == (
                u,
                Err::<LoginReplyModel, Failure>(Failure::Unauthorized),
            )
        }),
{
}

/// A passkey's counter never repeats: after a login with a counter, the same counter is refused.
pub proof fn counters_never_repeat(t: TxModel, user_id: Seq<char>, o: PasskeyOutcomeModel)
    requires
        used_passkey(t, user_id, o) is Some,
        o.counter > 0,
    ensures
        ({
            let c = used_passkey(t, user_id, o)->0;
            let u = TxModel {
                passkeys: t.passkeys.insert(credential_key_of(o.raw_id), c),
                ..t
            };
            used_passkey(u, user_id, o) is None
        }),
{
}

pub open spec fn invalid_credentials() -> Failure {
    Failure::Refused("invalid_credentials"@)
}

fn reject_credentials() -> (e: Error)
    ensures
        e@ == invalid_credentials(),
{
    Error::Refused("invalid_credentials".to_owned())
}

pub open spec fn unknown_passkey() -> Failure {
    Failure::Reply(
        401,
        "unknown_passkey"@,
        "This passkey isn't registered with riAuth. Use another passkey or sign in with your password."@,
    )
}

/// Whose keys a browser ceremony can use: the pinned user's, or any discoverable one.
pub open spec fn browser_keys(t: TxModel, pinned: Option<Seq<char>>) -> Result<
    Option<Seq<CredentialModel>>,
    Failure,
> {
    match pinned {
        None => Ok(None),
        Some(uid) => if !t.users.dom().contains(uid) || !t.users[uid].enabled {
            Err(Failure::Unauthorized)
        } else {
            let keys = user_keys_of(t, t.users[uid].id);
            if keys.len() == 0 {
                Err(
                    Failure::Reply(
                        409,
                        "no_passkey"@,
                        "This account has no passkey. Sign in with your password."@,
                    ),
                )
            } else {
                Ok(Some(keys))
            }
        },
    }
}

pub fn browser_passkey_keys(tx: &Tx, pinned: &Option<String>) -> (r: Result<
    Option<Vec<Credential>>,
    Error,
>)
    ensures
        match browser_keys(tx@, opt_text(*pinned)) {
            Err(f) => fails(r, f),
            Ok(None) => r is Ok && r->Ok_0 is None,
            Ok(Some(v)) => r is Ok && (r->Ok_0 matches Some(k) && views(k@) == v),
        },
{
    let uid = match pinned {
        None => return Ok(None),
        Some(u) => u,
    };
    let id = match tx.users.get(uid.as_str()) {
        None => return Err(Error::Unauthorized),
        Some(u) => {
            if !u.enabled {
                return Err(Error::Unauthorized);
            }
            u.id.clone()
        },
    };
    let keys = user_keys(tx, id.as_str());
    if keys.len() == 0 {
        return Err(
            Error::reply(
                409,
                "no_passkey",
                "This account has no passkey. Sign in with your password.",
            ),
        );
    }
    Ok(Some(keys))
}

/// What the start of a browser ceremony does: it is bound to one interaction and one browser.
pub open spec fn browser_login_started(
    t: TxModel,
    pinned: Option<Seq<char>>,
    interaction: Seq<char>,
    binding_hash: Seq<char>,
    state: Seq<char>,
) -> (TxModel, Result<Seq<char>, Failure>) {
    match browser_keys(t, pinned) {
        Err(f) => (t, Err(f)),
        Ok(keys) => {
            let ceremony = "ri_passkey_auth_"@ + next_id(t);
            (
                TxModel {
                    passkey_authentication: t.passkey_authentication.insert(
                        digest_of(ceremony),
                        AuthenticationModel {
                            user_id: match pinned {
                                Some(uid) => Some(t.users[uid].id),
                                None => None,
                            },
                            epoch: match pinned {
                                Some(uid) => t.users[uid].epoch,
                                None => 0,
                            },
                            expires_at: extended(t.now, 300),
                            state: if pinned is Some {
                                Some(state)
                            } else {
                                None
                            },
                            transaction: None,
                            interaction: Some(interaction),
                            binding_hash: Some(binding_hash),
                            discoverable: if pinned is Some {
                                None
                            } else {
                                Some(state)
                            },
                        },
                    ),
                    ..drawn(t)
                },
                Ok(ceremony),
            )
        },
    }
}

impl Core {
    /// Starts a browser ceremony with the private `state`; the ceremony's name.
    pub fn browser_passkey_start_with(
        &self,
        tx: &mut Tx,
        pinned: &Option<String>,
        interaction: &str,
        binding_hash: &str,
        state: &str,
    ) -> (r: Result<String, Error>)
        ensures
            ({
                let out = browser_login_started(
                    old(tx)@,
                    opt_text(*pinned),
                    interaction@,
                    binding_hash@,
                    state@,
                );
                final(tx)@ == out.0 && agrees_with(r, out.1)
            }),
    {
        if let Err(e) = browser_passkey_keys(tx, pinned) {
            return Err(e);
        }
        let mut user_id: Option<String> = None;
        let mut epoch: u64 = 0;
        if let Some(uid) = pinned {
            if let Some(u) = tx.users.get(uid.as_str()) {
                user_id = Some(u.id.clone());
                epoch = u.epoch;
            }
        }
        let ceremony = tx.random_token("ri_passkey_auth_");
        let key = digest(ceremony.as_str());
        let record = Authentication {
            user_id,
            epoch,
            expires_at: tx.now.saturating_add(300),
            state: if pinned.is_some() {
                Some(state.to_owned())
            } else {
                None
            },
            transaction: None,
            interaction: Some(interaction.to_owned()),
            binding_hash: Some(binding_hash.to_owned()),
            discoverable: if pinned.is_some() {
                None
            } else {
                Some(state.to_owned())
            },
        };
        tx.passkey_authentication.put(key.as_str(), record);
        Ok(ceremony)
    }
}

/// The browser that started the ceremony answers it, in time and for its interaction.
pub open spec fn bound_ceremony(
    t: TxModel,
    p: AuthenticationModel,
    interaction: Seq<char>,
    binding: Option<Seq<char>>,
) -> bool {
    p.expires_at > t.now && p.interaction == Some(interaction) && binding is Some && p.binding_hash
        == Some(digest_of(binding->0))
}

/// Whether a response completes a browser login, and with which passkey.
pub open spec fn browser_login_verified(
    t: TxModel,
    p: AuthenticationModel,
    interaction: Seq<char>,
    binding: Option<Seq<char>>,
    pinned: Option<Seq<char>>,
    o: PasskeyOutcomeModel,
) -> Result<(UserModel, CredentialModel), Failure> {
    if !bound_ceremony(t, p, interaction, binding) {
        Err(Failure::Unauthorized)
    } else if o.site is Some {
        Err(o.site->0)
    } else {
        match if p.discoverable is Some {
            let id = credential_key_of(o.claimed_id);
            if !o.has_handle || o.handle.len() != 16 {
                Err(invalid_credentials())
            } else if !t.passkeys.dom().contains(id) {
                Err(unknown_passkey())
            } else {
                let owner = t.passkeys[id].user_id;
                if o.handle != handle_of(owner) || !t.users.dom().contains(owner)
                    || !t.users[owner].enabled {
                    Err(invalid_credentials())
                } else {
                    Ok(t.users[owner])
                }
            }
        } else {
            match ceremony_user(t, p) {
                None => Err(invalid_credentials()),
                Some(u) => if !handle_fits(o, u.id) || p.state is None {
                    Err(invalid_credentials())
                } else {
                    Ok(u)
                },
            }
        } {
            Err(f) => Err(f),
            Ok(user) => if (pinned is Some && pinned->0 != user.id) || used_passkey(
                t,
                user.id,
                o,
            ) is None {
                Err(invalid_credentials())
            } else {
                Ok((user, used_passkey(t, user.id, o)->0))
            },
        }
    }
}

/// Who a browser login is for, before the browser has a session.
pub struct StagedLogin {
    pub identity: Identity,
    pub expires_at: u64,
}

/// What a [`StagedLogin`] holds.
pub struct StagedLoginModel {
    pub identity: IdentityModel,
    pub expires_at: u64,
}

impl View for StagedLogin {
    type V = StagedLoginModel;

    open spec fn view(&self) -> StagedLoginModel {
        StagedLoginModel {
            identity: self.identity@,
            expires_at: self.expires_at,
        }
    }
}

impl Row for StagedLogin {
    fn dup(&self) -> (r: Self) {
        StagedLogin {
            identity: self.identity.dup(),
            expires_at: self.expires_at,
        }
    }
}

/// What the end of a browser ceremony does: any answer uses it up.
pub open spec fn browser_login_finished(
    was: TxModel,
    config: ConfigModel,
    ceremony: Seq<char>,
    interaction: Seq<char>,
    binding: Option<Seq<char>>,
    pinned: Option<Seq<char>>,
    o: PasskeyOutcomeModel,
) -> (TxModel, Result<StagedLoginModel, Failure>) {
    let key = digest_of(ceremony);
    if !was.passkey_authentication.dom().contains(key) {
        (was, Err(Failure::Unauthorized))
    } else {
        let p = was.passkey_authentication[key];
        let t = TxModel { passkey_authentication: was.passkey_authentication.remove(key), ..was };
        match browser_login_verified(t, p, interaction, binding, pinned, o) {
            Err(f) => if f is Internal {
                (t, Err(f))
            } else {
                (audited(t, "anonymous"@, "passkey.login_failed"@, "passkey"@), Err(f))
            },
            Ok((user, c)) => (
                audited(
                    TxModel { passkeys: t.passkeys.insert(c.id, c), ..t },
                    user.id,
                    "passkey.login"@,
                    c.id,
                ),
                Ok(
                    StagedLoginModel {
                        identity: IdentityModel {
                            amr: seq!["webauthn"@, "mfa"@],
                            source: None,
                            user_id: user.id,
                            epoch: user.epoch,
                            mfa: true,
                            auth_time: t.now,
                            session_id: ""@,
                        },
                        expires_at: extended(t.now, config.session_ttl),
                    },
                ),
            ),
        }
    }
}

impl Core {
    fn verify_browser_login(
        &self,
        tx: &Tx,
        p: &Authentication,
        interaction: &str,
        binding: &Option<String>,
        pinned: &Option<String>,
        o: &PasskeyOutcome,
    ) -> (r: Result<(User, Credential), Error>)
        ensures
            match browser_login_verified(
                tx@,
                p@,
                interaction@,
                opt_text(*binding),
                opt_text(*pinned),
                o@,
            ) {
                Ok(x) => r is Ok && (r->Ok_0).0@ == x.0 && (r->Ok_0).1@ == x.1,
                Err(f) => fails(r, f),
            },
    {
        let bound = match binding {
            None => false,
            Some(b) => {
                let h = digest(b.as_str());
                opt_is(&p.binding_hash, h.as_str())
            },
        };
        if p.expires_at <= tx.now || !opt_is(&p.interaction, interaction) || !bound {
            return Err(Error::Unauthorized);
        }
        if let Some(e) = &o.site {
            return Err(copy_error(e));
        }
        let user = if p.discoverable.is_some() {
            if !o.has_handle || o.handle.len() != 16 {
                return Err(reject_credentials());
            }
            let id = credential_key(&o.claimed_id);
            let owner = match tx.passkeys.get(id.as_str()) {
                None => return Err(
                    Error::reply(
                        401,
                        "unknown_passkey",
                        "This passkey isn't registered with riAuth. Use another passkey or sign in with your password.",
                    ),
                ),
                Some(c) => c.user_id.clone(),
            };
            let h = handle(owner.as_str());
            if !same_bytes(&o.handle, &h) {
                return Err(reject_credentials());
            }
            match tx.users.get(owner.as_str()) {
                None => return Err(reject_credentials()),
                Some(u) => {
                    if !u.enabled {
                        return Err(reject_credentials());
                    }
                    u.dup()
                },
            }
        } else {
            match find_ceremony_user(tx, p) {
                None => return Err(reject_credentials()),
                Some(u) => {
                    if !is_handle_fit(o, u.id.as_str()) || p.state.is_none() {
                        return Err(reject_credentials());
                    }
                    u
                },
            }
        };
        if let Some(pin) = pinned {
            if !same(pin.as_str(), user.id.as_str()) {
                return Err(reject_credentials());
            }
        }
        match use_passkey(tx, user.id.as_str(), o) {
            None => Err(reject_credentials()),
            Some(c) => Ok((user, c)),
        }
    }

    /// Ends a browser ceremony; the login that is then staged for the browser.
    pub fn browser_passkey_finish_with(
        &self,
        tx: &mut Tx,
        ceremony: &str,
        interaction: &str,
        binding: &Option<String>,
        pinned: &Option<String>,
        outcome: &PasskeyOutcome,
    ) -> (r: Result<StagedLogin, Error>)
        ensures
            ({
                let out = browser_login_finished(
                    old(tx)@,
                    self@.config,
                    ceremony@,
                    interaction@,
                    opt_text(*binding),
                    opt_text(*pinned),
                    outcome@,
                );
                final(tx)@ == out.0 && agrees_with(r, out.1)
            }),
    {
        let key = digest(ceremony);
        let p = match tx.passkey_authentication.get(key.as_str()) {
            None => return Err(Error::Unauthorized),
            Some(p) => p.dup(),
        };
        tx.passkey_authentication.delete(key.as_str());
        let (user, c) = match self.verify_browser_login(
            tx,
            &p,
            interaction,
            binding,
            pinned,
            outcome,
        ) {
            Err(e) => {
                if let Error::Internal(_) = &e {
                    return Err(e);
                }
                audit(tx, "anonymous", "passkey.login_failed", "passkey");
                return Err(e);
            },
            Ok(x) => x,
        };
        let cid = c.id.clone();
        tx.passkeys.put(cid.as_str(), c);
        let mut amr: Vec<String> = Vec::new();
        amr.push("webauthn".to_owned());
        amr.push("mfa".to_owned());
        assert(texts(amr@) =~= seq!["webauthn"@, "mfa"@]);
        audit(tx, user.id.as_str(), "passkey.login", cid.as_str());
        Ok(
            StagedLogin {
                identity: Identity {
                    amr,
                    source: None,
                    user_id: user.id,
                    epoch: user.epoch,
                    mfa: true,
                    auth_time: tx.now,
                    session_id: "".to_owned(),
                },
                expires_at: tx.now.saturating_add(self.config.session_ttl),
            },
        )
    }
}

/// A ceremony that one browser started is never completed by another: without its binding the
/// response logs nobody in.
pub proof fn ceremonies_stay_in_their_browser(
    t: TxModel,
    config: ConfigModel,
    ceremony: Seq<char>,
    interaction: Seq<char>,
    binding: Option<Seq<char>>,
    pinned: Option<Seq<char>>,
    o: PasskeyOutcomeModel,
)
    requires
        browser_login_finished(t, config, ceremony, interaction, binding, pinned, o).1 is Ok,
    ensures
        binding is Some,
        t.passkey_authentication[digest_of(ceremony)].binding_hash == Some(digest_of(binding->0)),
        t.passkey_authentication[digest_of(ceremony)].interaction == Some(interaction),
{
}

/// A browser ceremony ends with its first answer, whatever comes of it: a second answer is refused
/// and changes nothing.
pub proof fn browser_ceremonies_are_used_once(
    t: TxModel,
    config: ConfigModel,
    ceremony: Seq<char>,
    interaction: Seq<char>,
    binding: Option<Seq<char>>,
    pinned: Option<Seq<char>>,
    o: PasskeyOutcomeModel,
    interaction2: Seq<char>,
    binding2: Option<Seq<char>>,
    pinned2: Option<Seq<char>>,
    second: PasskeyOutcomeModel,
)
    ensures
        !browser_login_finished(
            t,
            config,
            ceremony,
            interaction,
            binding,
            pinned,
            o,
        ).0.passkey_authentication.dom().contains(digest_of(ceremony)),
        ({
            let u = browser_login_finished(t, config, ceremony, interaction, binding, pinned, o).0;
            browser_login_finished(u, config, ceremony, interaction2, binding2, pinned2, second) == (
                u,
                Err::<StagedLoginModel, Failure>(Failure::Unauthorized),
            )
        }),
{
}

/// A key proves who logs in. Where the response was verified with the user's presence, by a key of the
/// user that the ceremony is for, whose counter has moved on, a session begins for that user, with two
/// factors, from now and for the time that the provider gives.
pub proof fn verified_passkeys_begin_a_session(
    t: TxModel,
    config: ConfigModel,
    ceremony: Seq<char>,
    o: PasskeyOutcomeModel,
)
    requires
        t.passkey_authentication.dom().contains(digest_of(ceremony)),
        t.passkey_authentication[digest_of(ceremony)].expires_at > t.now,
        t.passkey_authentication[digest_of(ceremony)].transaction is None,
        t.now + config.session_ttl <= u64::MAX,
        o.site is None,
    ensures
        ({
            let p = t.passkey_authentication[digest_of(ceremony)];
            let user = t.users[p.user_id->0];
            let cid = credential_key_of(o.raw_id);
            let out = login_finished(t, config, ceremony, o);
            let reply = out.1->Ok_0;
            let s = out.0.sessions[out.0.session_tokens[digest_of(reply.session_token)]];
            &&& out.1 is Ok <==> {
                &&& p.interaction is None && p.state is Some
                &&& p.user_id is Some && t.users.dom().contains(p.user_id->0)
                &&& user.enabled && user.epoch == p.epoch
                &&& !o.has_handle || o.handle == handle_of(user.id)
                &&& o.verified && o.user_verified && o.key is Some
                &&& t.passkeys.dom().contains(cid) && t.passkeys[cid].user_id == user.id
                &&& (o.counter == 0 && t.passkeys[cid].counter == 0) || o.counter
                    > t.passkeys[cid].counter
            }
            &&& out.1 is Ok ==> {
                &&& s.identity.user_id == user.id && s.identity.epoch == user.epoch
                &&& s.identity.mfa && s.identity.auth_time == t.now && s.identity.source is None
                &&& s.identity.amr == seq!["webauthn"@, "mfa"@]
                &&& s.identity.session_id == s.id
                &&& s.expires_at == t.now + config.session_ttl && !s.revoked
                &&& reply.expires_at == s.expires_at
                &&& s.token_hash == digest_of(reply.session_token)
                &&& reply.user == user_view(user)
                &&& out.0.passkeys[t.passkeys[cid].id].counter == o.counter
                &&& out.0.users == t.users
            }
            &&& out.1 is Err ==> out.0.sessions == t.sessions && out.0.session_tokens
                == t.session_tokens && out.0.passkeys == t.passkeys
        }),
{
}

/// A login in a browser gives the identity of the key's owner, and of the pinned user where one is pinned.
pub proof fn browser_passkeys_name_their_owner(
    t: TxModel,
    config: ConfigModel,
    ceremony: Seq<char>,
    interaction: Seq<char>,
    binding: Option<Seq<char>>,
    pinned: Option<Seq<char>>,
    o: PasskeyOutcomeModel,
)
    requires
        browser_login_finished(t, config, ceremony, interaction, binding, pinned, o).1 is Ok,
        t.now + config.session_ttl <= u64::MAX,
        forall|k: Seq<char>| #[trigger] t.users.dom().contains(k) ==> t.users[k].id == k,
    ensures
        ({
            let out = browser_login_finished(
                t,
                config,
                ceremony,
                interaction,
                binding,
                pinned,
                o,
            );
            let l = out.1->Ok_0;
            let cid = credential_key_of(o.raw_id);
            &&& o.verified && o.user_verified
            &&& t.passkeys.dom().contains(cid) && t.passkeys[cid].user_id == l.identity.user_id
            &&& pinned is Some ==> pinned->0 == l.identity.user_id
            &&& t.users.dom().contains(l.identity.user_id) && t.users[l.identity.user_id].enabled
            &&& l.identity.epoch == t.users[l.identity.user_id].epoch
            &&& l.identity.mfa && l.identity.auth_time == t.now && l.identity.amr == seq![
                "webauthn"@,
                "mfa"@,
            ]
            &&& l.expires_at == t.now + config.session_ttl
            &&& t.passkey_authentication[digest_of(ceremony)].expires_at > t.now
            &&& out.0.sessions == t.sessions
            &&& out.0.passkeys[t.passkeys[cid].id].counter == o.counter
        }),
{
}

/// A login with a key is started for the named user, for five minutes; nobody learns from it whether the
/// name is known, for an unknown name is answered in the same way.
pub proof fn passkey_logins_start_alike(
    t: TxModel,
    username: Seq<char>,
    state: Option<Seq<char>>,
    rules: RulesModel,
)
    requires
        name_check(rules, username) is Ok,
        t.now + 300 <= u64::MAX,
    ensures
        ({
            let out = login_started(t, username, None, state, rules);
            let p = out.0.passkey_authentication[digest_of(out.1->Ok_0)];
            let user = named_user(t, username);
            &&& out.1 == Ok::<Seq<char>, Failure>("ri_passkey_auth_"@ + next_id(t))
            &&& p.expires_at == t.now + 300 && p.state == state && p.interaction is None
                && p.transaction is None
            &&& (user is Some && (user->0).enabled) ==> p.user_id == Some((user->0).id) && p.epoch
                == (user->0).epoch
            &&& (user is None || !(user->0).enabled) ==> p.user_id is None
            &&& out.0.users == t.users && out.0.sessions == t.sessions
        }),
{
}

/// A passkey login in a browser is for the account that was signed in, if it must be that one, and for
/// that browser; it waits for five minutes.
pub proof fn browser_ceremonies_are_bound(
    t: TxModel,
    pinned: Option<Seq<char>>,
    interaction: Seq<char>,
    binding_hash: Seq<char>,
    state: Seq<char>,
)
    requires
        browser_login_started(t, pinned, interaction, binding_hash, state).1 is Ok,
        t.now <= u64::MAX - 300,
    ensures
        ({
            let (u, r) = browser_login_started(t, pinned, interaction, binding_hash, state);
            let a = u.passkey_authentication[digest_of(r->Ok_0)];
            &&& u.passkey_authentication.dom().contains(digest_of(r->Ok_0))
            &&& a.expires_at == t.now + 300
            &&& a.interaction == Some(interaction)
            &&& a.binding_hash == Some(binding_hash)
            &&& a.transaction is None
            &&& pinned matches Some(uid) ==> t.users.dom().contains(uid) && t.users[uid].enabled && a.user_id
                == Some(t.users[uid].id) && a.epoch == t.users[uid].epoch && a.state == Some(state)
                && a.discoverable is None && user_keys_of(t, t.users[uid].id).len() > 0
            &&& pinned is None ==> a.user_id is None && a.state is None && a.discoverable == Some(state)
        }),
{
}

/// An account without a passkey is told so, and one that is gone or disabled is refused.
pub proof fn accounts_without_keys_use_a_password(t: TxModel, uid: Seq<char>)
    ensures
        browser_keys(t, None) == Ok::<Option<Seq<CredentialModel>>, Failure>(None),
        !t.users.dom().contains(uid) || !t.users[uid].enabled ==> browser_keys(t, Some(uid)) == Err::<
            Option<Seq<CredentialModel>>,
            Failure,
        >(Failure::Unauthorized),
        t.users.dom().contains(uid) && t.users[uid].enabled ==> (browser_keys(t, Some(uid)) is Ok
            <==> user_keys_of(t, t.users[uid].id).len() > 0),
        browser_keys(t, Some(uid)) matches Ok(Some(v)) ==> v == user_keys_of(t, t.users[uid].id),
{
}

/// A login belongs to a transaction that is open, was not used, and is nobody else's.
pub proof fn transactions_are_completed_once(t: TxModel, token: Seq<char>, user_id: Seq<char>)
    ensures
        open_transaction(t, token) matches Ok(x) ==> t.authentication.dom().contains(digest_of(token)) && x
            == t.authentication[digest_of(token)] && x.expires_at > t.now && x.authenticated_session is None,
        completed_transaction(t, None, user_id) is Ok,
        completed_transaction(t, Some(token), user_id) is Ok ==> {
            let x = t.authentication[digest_of(token)];
            &&& t.authentication.dom().contains(digest_of(token))
            &&& x.expires_at > t.now
            &&& x.authenticated_session is None
            &&& x.user_id is None || x.user_id == Some(user_id)
        },
        open_transaction(t, token) is Ok && (t.authentication[digest_of(token)].user_id is None
            || t.authentication[digest_of(token)].user_id == Some(user_id)) ==> completed_transaction(
            t,
            Some(token),
            user_id,
        ) is Ok,
{
}

/// A ceremony is the browser's own: the same interaction, the same binding, and not over.
pub proof fn ceremonies_are_bound_to_their_browser(
    t: TxModel,
    p: AuthenticationModel,
    interaction: Seq<char>,
    binding: Option<Seq<char>>,
)
    ensures
        bound_ceremony(t, p, interaction, binding) <==> {
            &&& t.now < p.expires_at
            &&& p.interaction == Some(interaction)
            &&& binding is Some
            &&& p.binding_hash is Some && p.binding_hash->0 == digest_of(binding->0)
        },
{
}

} // verus!
