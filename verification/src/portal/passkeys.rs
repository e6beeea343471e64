//! Passkeys in the portal: a browser enrolls and signs in with them in its own session.
use crate::engine::{ConfigModel, Core};
use crate::error::{Error, Failure, agrees_with, fails, opt_failure};
use crate::model::{Session, SessionModel, User, UserModel};
use crate::outside::{digest, digest_of};
use crate::passkey::{Credential, CredentialModel, enrollment_name, registration_started};
use crate::passkey::ceremony::{Started, enrollment_refused, outcome_of, registration_answered, relying_party_of};
use crate::passkey::login::{StagedLogin, browser_login_finished};
use crate::portal::sign_in::{check_factor_session, factor_session_check};
use crate::rules::Rules;
use crate::store::{Tx, TxModel};
use crate::table::opt_view;
use crate::text::opt_text;
use vstd::prelude::*;
use vstd::string::*;

verus! {

/// The store once this browser does not lead to a session any more.
pub open spec fn browser_unmapped(t: TxModel, sso: Option<Seq<char>>) -> TxModel {
    match sso {
        Some(c) => TxModel { browser_sessions: t.browser_sessions.remove(digest_of(c)), ..t },
        None => t,
    }
}

/// What the end of an enrollment from a browser does: the enrollment ends every session, and this
/// browser's way to its own.
pub open spec fn portal_enrolled(
    t: TxModel,
    config: ConfigModel,
    sso: Option<Seq<char>>,
    user: UserModel,
    session: Option<SessionModel>,
    shared: bool,
    ceremony: Seq<char>,
    response: Seq<char>,
) -> (TxModel, Result<CredentialModel, Failure>) {
    match factor_session_check(session is Some, shared) {
        Err(f) => (t, Err(f)),
        Ok(_) => {
            let out = registration_answered(t, config, user, session->0, ceremony, response);
            if out.1 is Ok {
                (browser_unmapped(out.0, sso), out.1)
            } else {
                out
            }
        },
    }
}

impl Core {
    /// Starts an enrollment from a browser that signed in itself. Which challenge is drawn rests with
    /// the WebAuthn library.
    pub fn portal_passkey_register_start(
        &self,
        tx: &mut Tx,
        user: &User,
        session: &Option<Session>,
        shared: bool,
        name: &str,
        factor: &Option<Error>,
        rules: &Rules,
    ) -> (r: Result<Started, Error>)
        ensures
            match factor_session_check(session is Some, shared) {
                Err(f) => fails(r, f) && final(tx)@ == old(tx)@,
                Ok(_) => match enrollment_refused(
                    old(tx)@,
                    self@.config,
                    user@,
                    (session->0)@,
                    opt_failure(*factor),
                    rules@,
                ) {
                    Err(f) => fails(r, f) && final(tx)@ == old(tx)@,
                    Ok(_) => match r {
                        Err(e) => e@ == Failure::Bad("Cannot start passkey enrollment"@)
                            && final(tx)@ == old(tx)@,
                        Ok(x) => x@.ceremony == enrollment_name(old(tx)@) && exists|state: Seq<char>|
                            final(tx)@ == #[trigger] registration_started(
                                old(tx)@,
                                (session->0)@,
                                name@,
                                state,
                            ),
                    },
                },
            },
    {
        if let Err(e) = check_factor_session(session.is_some(), shared) {
            return Err(e);
        }
        match session {
            None => Err(Error::Unauthorized),
            Some(s) => self.passkey_register_start(tx, user, s, name, factor, rules),
        }
    }

    /// Ends an enrollment from a browser.
    pub fn portal_passkey_register_finish(
        &self,
        tx: &mut Tx,
        sso: &Option<String>,
        user: &User,
        session: &Option<Session>,
        shared: bool,
        ceremony: &str,
        response: &str,
    ) -> (r: Result<Credential, Error>)
        ensures
            ({
                let out = portal_enrolled(
                    old(tx)@,
                    self@.config,
                    opt_text(*sso),
                    user@,
                    opt_view(*session),
                    shared,
                    ceremony@,
                    response@,
                );
                final(tx)@ == out.0 && agrees_with(r, out.1)
            }),
    {
        if let Err(e) = check_factor_session(session.is_some(), shared) {
            return Err(e);
        }
        let s = match session {
            None => return Err(Error::Unauthorized),
            Some(s) => s,
        };
        let enrolled = self.passkey_register_finish(tx, user, s, ceremony, response);
        if enrolled.is_ok() {
            if let Some(c) = sso {
                let h = digest(c.as_str());
                tx.browser_sessions.delete(h.as_str());
            }
        }
        enrolled
    }

    /// Ends the portal's passkey ceremony; the login that is then staged for this browser.
    pub fn portal_passkey_finish(
        &self,
        tx: &mut Tx,
        binding: &Option<String>,
        ceremony: &str,
        response: &str,
    ) -> (r: Result<StagedLogin, Error>)
        ensures
            ({
                let out = browser_login_finished(
                    old(tx)@,
                    self@.config,
                    ceremony@,
                    "portal"@,
                    opt_text(*binding),
                    None,
                    outcome_of(
                        old(tx)@,
                        relying_party_of(self@.config.issuer),
                        response@,
                        old(tx)@.passkey_authentication[digest_of(ceremony@)],
                    ),
                );
                final(tx)@ == out.0 && agrees_with(r, out.1)
            }),
    {
        let free: Option<String> = None;
        self.browser_passkey_finish(tx, ceremony, response, "portal", binding, &free)
    }
}

/// A browser that only borrowed a terminal's session changes no passkey.
pub proof fn borrowed_sessions_enroll_nothing(
    t: TxModel,
    config: ConfigModel,
    sso: Option<Seq<char>>,
    user: UserModel,
    session: Option<SessionModel>,
    ceremony: Seq<char>,
    response: Seq<char>,
)
    ensures
        portal_enrolled(t, config, sso, user, session, true, ceremony, response).0 == t,
        portal_enrolled(t, config, sso, user, session, true, ceremony, response).1 is Err,
{
}

/// An enrollment from a browser is made in the browser's own session, as it was begun, and ends that
/// browser's way to the session.
pub proof fn enrolling_browsers_sign_in_again(
    t: TxModel,
    config: ConfigModel,
    cookie: Seq<char>,
    user: UserModel,
    session: Option<SessionModel>,
    shared: bool,
    ceremony: Seq<char>,
    response: Seq<char>,
)
    ensures
        ({
            let (u, r) = portal_enrolled(
                t,
                config,
                Some(cookie),
                user,
                session,
                shared,
                ceremony,
                response,
            );
            &&& r is Ok ==> !u.browser_sessions.dom().contains(digest_of(cookie))
            &&& r is Ok ==> session is Some && !shared
            &&& r is Ok ==> t.passkey_registration.dom().contains(digest_of(ceremony))
                && t.passkey_registration[digest_of(ceremony)].expires_at > t.now
                && t.passkey_registration[digest_of(ceremony)].identity.user_id == user.id
        }),
{
}

} // verus!
