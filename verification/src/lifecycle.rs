//! Account proofs that are bound to a purpose, and a leased, durable outbox.
pub mod outbox;

use crate::engine::{ConfigModel, Core, Principal, PrincipalModel, audit, audited, drawn, extended, next_id};
use crate::error::{Error, Failure, agrees, agrees_with, and_also, fails};
use crate::logout::{SelectionModel, ended_all, queue_user, queued};
use crate::model::{Group, GroupModel, User, UserModel, UserView, UserViewModel, user_view};
use crate::mtls::{named_user, user_by_name};
use crate::names::{Names, in_order};
use crate::outside::{address_ok, digest, digest_of, mail_address, mail_box, mailbox_ok, parse_url, url_of};
use crate::password_history::{accept, history_is_bounded_and_current, password_accepted};
use crate::rules::{Rules, RulesModel, name_check, rule_check};
use crate::store::{Tx, TxModel};
use crate::table::{Row, Table, opt_view, without};
use crate::text::{byte_count, byte_len, concat, concat3, decimal, decimal_text, has_prefix, opt_is, opt_text, same, starts_with};
use vstd::prelude::*;
use vstd::string::*;

verus! {

/// The relay that account mail is handed to.
pub struct MailConfig {
    pub host: String,
    pub port: u16,
    pub from: String,
    pub security: MailSecurity,
    pub username: Option<String>,
    pub password_file: Option<String>,
}

/// What a [`MailConfig`] holds.
pub struct MailConfigModel {
    pub host: Seq<char>,
    pub port: u16,
    pub from: Seq<char>,
    pub security: MailSecurity,
    pub username: Option<Seq<char>>,
    pub password_file: Option<Seq<char>>,
}

impl View for MailConfig {
    type V = MailConfigModel;

    open spec fn view(&self) -> MailConfigModel {
        MailConfigModel {
            host: self.host@,
            port: self.port,
            from: self.from@,
            security: self.security,
            username: crate::text::opt_text(self.username),
            password_file: crate::text::opt_text(self.password_file),
        }
    }
}

impl Row for MailConfig {
    fn dup(&self) -> (r: Self) {
        MailConfig {
            host: self.host.clone(),
            port: self.port,
            from: self.from.clone(),
            security: self.security,
            username: crate::text::copy_opt(&self.username),
            password_file: crate::text::copy_opt(&self.password_file),
        }
    }
}

#[derive(Clone, Copy, PartialEq, Eq, Structural, Debug)]
pub enum MailSecurity {
    Tls,
    Starttls,
    Loopback,
}

/// A plain host: nothing of a URL but its host.
pub open spec fn plain_host(host: Seq<char>) -> bool {
    match url_of("https://"@ + host) {
        None => false,
        Some(u) => u.host is Some && u.path == "/"@ && u.query is None && u.fragment is None
            && u.username == ""@ && u.password is None && u.port is None,
    }
}

/// `loopback` tells whether the host is a literal loopback address.
pub open spec fn mail_check(c: MailConfigModel, loopback: bool) -> Result<(), Failure> {
    if url_of("https://"@ + c.host) is None {
        Err(Failure::Refused("url"@))
    } else if !plain_host(c.host) || c.port == 0 {
        Err(Failure::Bad("Invalid SMTP host or port"@))
    } else if !mail_box(c.from) {
        Err(Failure::Refused("mailbox"@))
    } else if c.username is Some != c.password_file is Some {
        Err(Failure::Bad("SMTP authentication requires username and password_file together"@))
    } else if c.security == MailSecurity::Loopback && !loopback {
        Err(
            Failure::Bad("Unencrypted SMTP is restricted to a literal loopback address"@),
        )
    } else {
        Ok(())
    }
}

impl MailConfig {
    pub fn validate(&self, loopback: bool) -> (r: Result<(), Error>)
        ensures
            agrees(r, mail_check(self@, loopback)),
    {
        let address = concat("https://", self.host.as_str());
        let u = match parse_url(address.as_str()) {
            None => return Err(Error::Refused("url".to_owned())),
            Some(u) => u,
        };
        proof {
            reveal_strlit("");
            if u.username@.len() == 0 {
                assert(u.username@ =~= ""@);
            }
        }
        if !(u.host.is_some() && same(u.path.as_str(), "/") && u.query.is_none()
            && u.fragment.is_none() && u.username.as_str().is_empty() && u.password.is_none()
            && u.port.is_none()) || self.port == 0 {
            return Err(Error::bad("Invalid SMTP host or port"));
        }
        if !mailbox_ok(self.from.as_str()) {
            return Err(Error::Refused("mailbox".to_owned()));
        }
        if self.username.is_some() != self.password_file.is_some() {
            return Err(
                Error::bad("SMTP authentication requires username and password_file together"),
            );
        }
        let open = match self.security {
            MailSecurity::Loopback => true,
            _ => false,
        };
        if open && !loopback {
            return Err(
                Error::bad("Unencrypted SMTP is restricted to a literal loopback address"),
            );
        }
        Ok(())
    }
}

/// What a proof is for.
#[derive(Clone, Copy, PartialEq, Eq, Structural, Debug)]
pub enum Purpose {
    Verify,
    Reset,
    Invite,
}

pub open spec fn purpose_name(p: Purpose) -> Seq<char> {
    match p {
        Purpose::Verify => "verify"@,
        Purpose::Reset => "reset"@,
        Purpose::Invite => "accept"@,
    }
}

impl Purpose {
    pub fn name(self) -> (r: &'static str)
        ensures
            r@ == purpose_name(self),
    {
        match self {
            Purpose::Verify => "verify",
            Purpose::Reset => "reset",
            Purpose::Invite => "accept",
        }
    }
}

/// The seconds that a proof stands.
pub open spec fn purpose_ttl(p: Purpose) -> u64 {
    match p {
        Purpose::Verify => 86400,
        Purpose::Reset => 1800,
        Purpose::Invite => 604800,
    }
}

pub open spec fn purpose_subject(p: Purpose) -> Seq<char> {
    match p {
        Purpose::Verify => "Verify your riAuth email"@,
        Purpose::Reset => "Reset your riAuth password"@,
        Purpose::Invite => "Your riAuth account invitation"@,
    }
}

/// What whoever holds the code may do, once.
pub struct AccountProof {
    pub purpose: Purpose,
    pub user_id: String,
    pub email: String,
    pub epoch: u64,
    pub expires_at: u64,
    pub groups: Names,
    pub creator: Option<String>,
}

/// What a [`AccountProof`] holds.
pub struct AccountProofModel {
    pub purpose: Purpose,
    pub user_id: Seq<char>,
    pub email: Seq<char>,
    pub epoch: u64,
    pub expires_at: u64,
    pub groups: Set<Seq<char>>,
    pub creator: Option<Seq<char>>,
}

impl View for AccountProof {
    type V = AccountProofModel;

    open spec fn view(&self) -> AccountProofModel {
        AccountProofModel {
            purpose: self.purpose,
            user_id: self.user_id@,
            email: self.email@,
            epoch: self.epoch,
            expires_at: self.expires_at,
            groups: self.groups@,
            creator: crate::text::opt_text(self.creator),
        }
    }
}

impl Row for AccountProof {
    fn dup(&self) -> (r: Self) {
        AccountProof {
            purpose: self.purpose,
            user_id: self.user_id.clone(),
            email: self.email.clone(),
            epoch: self.epoch,
            expires_at: self.expires_at,
            groups: self.groups.copy(),
            creator: crate::text::copy_opt(&self.creator),
        }
    }
}

/// A message on its way.
pub struct MailDelivery {
    pub id: String,
    pub proof: String,
    pub recipient: String,
    pub subject: String,
    pub body: Option<String>,
    pub expires_at: u64,
    pub created_at: u64,
    pub next_attempt: u64,
    pub attempts: u32,
    pub lease: Option<String>,
    pub delivered_at: Option<u64>,
    pub stopped: bool,
}

/// What a [`MailDelivery`] holds.
pub struct MailDeliveryModel {
    pub id: Seq<char>,
    pub proof: Seq<char>,
    pub recipient: Seq<char>,
    pub subject: Seq<char>,
    pub body: Option<Seq<char>>,
    pub expires_at: u64,
    pub created_at: u64,
    pub next_attempt: u64,
    pub attempts: u32,
    pub lease: Option<Seq<char>>,
    pub delivered_at: Option<u64>,
    pub stopped: bool,
}

impl View for MailDelivery {
    type V = MailDeliveryModel;

    open spec fn view(&self) -> MailDeliveryModel {
        MailDeliveryModel {
            id: self.id@,
            proof: self.proof@,
            recipient: self.recipient@,
            subject: self.subject@,
            body: crate::text::opt_text(self.body),
            expires_at: self.expires_at,
            created_at: self.created_at,
            next_attempt: self.next_attempt,
            attempts: self.attempts,
            lease: crate::text::opt_text(self.lease),
            delivered_at: self.delivered_at,
            stopped: self.stopped,
        }
    }
}

impl Row for MailDelivery {
    fn dup(&self) -> (r: Self) {
        MailDelivery {
            id: self.id.clone(),
            proof: self.proof.clone(),
            recipient: self.recipient.clone(),
            subject: self.subject.clone(),
            body: crate::text::copy_opt(&self.body),
            expires_at: self.expires_at,
            created_at: self.created_at,
            next_attempt: self.next_attempt,
            attempts: self.attempts,
            lease: crate::text::copy_opt(&self.lease),
            delivered_at: self.delivered_at,
            stopped: self.stopped,
        }
    }
}

/// How often mail was asked for since `start`.
pub struct MailLimit {
    pub start: u64,
    pub count: u32,
    pub last: u64,
}

/// What a [`MailLimit`] holds.
pub struct MailLimitModel {
    pub start: u64,
    pub count: u32,
    pub last: u64,
}

impl View for MailLimit {
    type V = MailLimitModel;

    open spec fn view(&self) -> MailLimitModel {
        MailLimitModel {
            start: self.start,
            count: self.count,
            last: self.last,
        }
    }
}

impl Row for MailLimit {
    fn dup(&self) -> (r: Self) {
        MailLimit {
            start: self.start,
            count: self.count,
            last: self.last,
        }
    }
}

pub struct Invitation {
    pub username: String,
    pub email: String,
    pub display_name: String,
    pub groups: Names,
}

/// What a [`Invitation`] holds.
pub struct InvitationModel {
    pub username: Seq<char>,
    pub email: Seq<char>,
    pub display_name: Seq<char>,
    pub groups: Set<Seq<char>>,
}

impl View for Invitation {
    type V = InvitationModel;

    open spec fn view(&self) -> InvitationModel {
        InvitationModel {
            username: self.username@,
            email: self.email@,
            display_name: self.display_name@,
            groups: self.groups@,
        }
    }
}

impl Row for Invitation {
    fn dup(&self) -> (r: Self) {
        Invitation {
            username: self.username.clone(),
            email: self.email.clone(),
            display_name: self.display_name.clone(),
            groups: self.groups.copy(),
        }
    }
}

pub open spec fn no_mail() -> Failure {
    Failure::Reply(
        503,
        "delivery_unavailable"@,
        "Account email delivery is not configured"@,
    )
}

fn mail_missing() -> (e: Error)
    ensures
        e@ == no_mail(),
{
    Error::reply(503, "delivery_unavailable", "Account email delivery is not configured")
}

pub open spec fn email_check(address: Seq<char>, rules: RulesModel) -> Result<(), Failure> {
    match rule_check(rules, address) {
        Err(f) => Err(f),
        Ok(_) => if mail_address(address) {
            Ok(())
        } else {
            Err(Failure::Bad("Invalid email address"@))
        },
    }
}

pub fn email(address: &str, rules: &Rules) -> (r: Result<(), Error>)
    ensures
        agrees(r, email_check(address@, rules@)),
{
    if let Err(e) = rules.check_rule(address) {
        return Err(e);
    }
    if !address_ok(address) {
        return Err(Error::bad("Invalid email address"));
    }
    Ok(())
}

pub open spec fn proof_key_of(user_id: Seq<char>, p: Purpose) -> Seq<char> {
    user_id + ":"@ + purpose_name(p)
}

pub fn proof_key(user_id: &str, purpose: Purpose) -> (r: String)
    ensures
        r@ == proof_key_of(user_id@, purpose),
{
    concat3(user_id, ":", purpose.name())
}

/// The text of a message.
pub open spec fn mail_body(
    p: Purpose,
    issuer: Seq<char>,
    username: Seq<char>,
    token: Seq<char>,
    expires_at: u64,
) -> Seq<char> {
    purpose_subject(p) + "\n\nServer: "@ + issuer + "\nAccount: "@ + username
        + "\n\nRun: riauth --server "@ + issuer + " account "@ + purpose_name(p)
        + " --token-stdin\nPaste this one-use code when asked:\n"@ + token
        + "\n\nExpires at Unix time "@ + decimal(expires_at as nat)
        + ". A password reset keeps your enrolled MFA factors. If you did not request this message, ignore it.\n"@
}

fn write_body(purpose: Purpose, issuer: &str, username: &str, token: &str, expires_at: u64) -> (r: String)
    ensures
        r@ == mail_body(purpose, issuer@, username@, token@, expires_at),
{
    let subject = subject_of_mail(purpose);
    let mut t = concat3(subject, "\n\nServer: ", issuer);
    t.append("\nAccount: ");
    t.append(username);
    t.append("\n\nRun: riauth --server ");
    t.append(issuer);
    t.append(" account ");
    t.append(purpose.name());
    t.append(" --token-stdin\nPaste this one-use code when asked:\n");
    t.append(token);
    t.append("\n\nExpires at Unix time ");
    let n = decimal_text(expires_at);
    t.append(n.as_str());
    t.append(
        ". A password reset keeps your enrolled MFA factors. If you did not request this message, ignore it.\n",
    );
    t
}

fn subject_of_mail(purpose: Purpose) -> (r: &'static str)
    ensures
        r@ == purpose_subject(purpose),
{
    match purpose {
        Purpose::Verify => "Verify your riAuth email",
        Purpose::Reset => "Reset your riAuth password",
        Purpose::Invite => "Your riAuth account invitation",
    }
}

/// What sending a code to a user does: the user's earlier code for the purpose ends.
pub open spec fn mailed(
    t: TxModel,
    issuer: Seq<char>,
    user: UserModel,
    p: Purpose,
    groups: Set<Seq<char>>,
    creator: Option<Seq<char>>,
    rules: RulesModel,
) -> (TxModel, Result<(), Failure>) {
    match user.email {
        None => (t, Err(Failure::Bad("Account has no email address"@))),
        Some(address) => match email_check(address, rules) {
            Err(f) => (t, Err(f)),
            Ok(_) => {
                let key = proof_key_of(user.id, p);
                let proofs = if t.account_latest.dom().contains(key) {
                    t.account_proofs.remove(t.account_latest[key])
                } else {
                    t.account_proofs
                };
                let token = "ri_mail_"@ + next_id(t);
                let hash = digest_of(token);
                let expires_at = extended(t.now, purpose_ttl(p));
                let d = MailDeliveryModel {
                    id: next_id(drawn(t)),
                    proof: hash,
                    recipient: address,
                    subject: purpose_subject(p),
                    body: Some(mail_body(p, issuer, user.username, token, expires_at)),
                    expires_at,
                    created_at: t.now,
                    next_attempt: t.now,
                    attempts: 0,
                    lease: None,
                    delivered_at: None,
                    stopped: false,
                };
                (
                    TxModel {
                        account_proofs: proofs.insert(
                            hash,
                            AccountProofModel {
                                purpose: p,
                                user_id: user.id,
                                email: address,
                                epoch: user.epoch,
                                expires_at,
                                groups,
                                creator,
                            },
                        ),
                        account_latest: t.account_latest.insert(key, hash),
                        mail_deliveries: t.mail_deliveries.insert(d.id, d),
                        ..drawn(drawn(t))
                    },
                    Ok(()),
                )
            },
        },
    }
}

fn lifetime_of_proof(purpose: Purpose) -> (r: u64)
    ensures
        r == purpose_ttl(purpose),
{
    match purpose {
        Purpose::Verify => 86400,
        Purpose::Reset => 1800,
        Purpose::Invite => 604800,
    }
}

pub fn enqueue(
    tx: &mut Tx,
    issuer: &str,
    user: &User,
    purpose: Purpose,
    groups: Names,
    creator: Option<String>,
    rules: &Rules,
) -> (r: Result<(), Error>)
    ensures
        ({
            let out = mailed(
                old(tx)@,
                issuer@,
                user@,
                purpose,
                groups@,
                opt_text(creator),
                rules@,
            );
            final(tx)@ == out.0 && agrees(r, out.1)
        }),
{
    let address = match &user.email {
        None => return Err(Error::bad("Account has no email address")),
        Some(a) => a.clone(),
    };
    if let Err(e) = email(address.as_str(), rules) {
        return Err(e);
    }
    let key = proof_key(user.id.as_str(), purpose);
    let earlier_hash = match tx.account_latest.get(key.as_str()) {
        Some(h) => Some(h.clone()),
        None => None,
    };
    if let Some(h) = earlier_hash {
        tx.account_proofs.delete(h.as_str());
    }
    let token = tx.random_token("ri_mail_");
    let hash = digest(token.as_str());
    let expires_at = tx.now.saturating_add(lifetime_of_proof(purpose));
    tx.account_proofs.put(
        hash.as_str(),
        AccountProof {
            purpose,
            user_id: user.id.clone(),
            email: address.clone(),
            epoch: user.epoch,
            expires_at,
            groups,
            creator,
        },
    );
    tx.account_latest.put(key.as_str(), hash.clone());
    let body = write_body(
        purpose,
        issuer,
        user.username.as_str(),
        token.as_str(),
        expires_at,
    );
    let d = MailDelivery {
        id: tx.id(),
        proof: hash,
        recipient: address,
        subject: subject_of_mail(purpose).to_owned(),
        body: Some(body),
        expires_at,
        created_at: tx.now,
        next_attempt: tx.now,
        attempts: 0,
        lease: None,
        delivered_at: None,
        stopped: false,
    };
    let id = d.id.clone();
    tx.mail_deliveries.put(id.as_str(), d);
    Ok(())
}

/// The limit that an hour has passed since.
pub open spec fn limit_over(at: u64) -> spec_fn(MailLimitModel) -> bool {
    |l: MailLimitModel| extended(l.start, 3600) <= at
}

pub fn is_limit_over(l: &MailLimit, at: u64) -> (b: bool)
    ensures
        b == limit_over(at)(l@),
{
    l.start.saturating_add(3600) <= at
}

pub open spec fn limit_key(username: Seq<char>, p: Purpose) -> Seq<char> {
    digest_of(purpose_name(p) + "\0"@ + username)
}

/// Whether mail may be asked for now, with the state that the request leaves: at most once a minute
/// and five times an hour. Names that no account has are counted the same way.
pub open spec fn mail_asked(t: TxModel, username: Seq<char>, p: Purpose) -> (TxModel, bool) {
    let key = limit_key(username, p);
    let was = if t.mail_limits.dom().contains(key) {
        t.mail_limits[key]
    } else {
        MailLimitModel { start: 0, count: 0, last: 0 }
    };
    let now = if extended(was.start, 3600) <= t.now {
        MailLimitModel { start: t.now, count: 0, last: 0 }
    } else {
        was
    };
    if extended(now.last, 60) > t.now || now.count >= 5 {
        (t, false)
    } else {
        let full = was.start == 0 && t.mail_limits.dom().len() >= 10000;
        let limits = if full {
            without(t.mail_limits, limit_over(t.now))
        } else {
            t.mail_limits
        };
        let u = TxModel { mail_limits: limits, ..t };
        if full && limits.dom().len() >= 10000 {
            (u, false)
        } else {
            (
                TxModel {
                    mail_limits: limits.insert(
                        key,
                        MailLimitModel {
                            start: now.start,
                            count: (now.count + 1) as u32,
                            last: t.now,
                        },
                    ),
                    ..t
                },
                true,
            )
        }
    }
}

pub fn request_allowed(tx: &mut Tx, username: &str, purpose: Purpose) -> (r: bool)
    ensures
        ({
            let out = mail_asked(old(tx)@, username@, purpose);
            final(tx)@ == out.0 && r == out.1
        }),
{
    let t = concat3(purpose.name(), "\0", username);
    let key = digest(t.as_str());
    let was = match tx.mail_limits.get(key.as_str()) {
        Some(l) => l.dup(),
        None => MailLimit { start: 0, count: 0, last: 0 },
    };
    let fresh = was.start.saturating_add(3600) <= tx.now;
    let (start, count, last): (u64, u32, u64) = if fresh {
        (tx.now, 0, 0)
    } else {
        (was.start, was.count, was.last)
    };
    if last.saturating_add(60) > tx.now || count >= 5 {
        return false;
    }
    if was.start == 0 {
        let known = tx.mail_limits.keys();
        if known.len() >= 10000 {
            let now = tx.now;
            tx.mail_limits.purge(now, is_limit_over, Ghost(limit_over(now)));
            let left = tx.mail_limits.keys();
            if left.len() >= 10000 {
                return false;
            }
        }
    }
    let now = tx.now;
    tx.mail_limits.put(key.as_str(), MailLimit { start, count: count + 1, last: now });
    true
}

/// Within the hour that a request is counted in, mail is asked for at most once a minute: whoever
/// was allowed is refused for the rest of the minute.
pub proof fn mail_is_rationed(t: TxModel, username: Seq<char>, p: Purpose, later: u64)
    requires
        mail_asked(t, username, p).1,
        t.now <= later,
        later - t.now < 60,
        later < extended(
            mail_asked(t, username, p).0.mail_limits[limit_key(username, p)].start,
            3600,
        ),
    ensures
        ({
            let u = TxModel { now: later, ..mail_asked(t, username, p).0 };
            mail_asked(u, username, p) == (u, false)
        }),
{
}

/// What asking for a verification does.
pub open spec fn verification_requested(
    t: TxModel,
    config: ConfigModel,
    user: UserModel,
    auth_time: u64,
    rules: RulesModel,
) -> (TxModel, Result<(), Failure>) {
    if config.mail is None {
        (t, Err(no_mail()))
    } else if t.now >= auth_time && t.now - auth_time > 300 {
        (t, Err(Failure::Forbidden))
    } else {
        let asked = mail_asked(t, user.username, Purpose::Verify);
        if asked.1 && !user.email_verified {
            let out = mailed(
                asked.0,
                config.issuer,
                user,
                Purpose::Verify,
                Set::empty(),
                None,
                rules,
            );
            match out.1 {
                Err(f) => (t, Err(f)),
                Ok(_) => (
                    audited(out.0, user.id, "account.verification.request"@, user.id),
                    Ok(()),
                ),
            }
        } else {
            (asked.0, Ok(()))
        }
    }
}

/// What asking for a reset does. Unknown accounts are answered the same way.
pub open spec fn reset_requested(
    t: TxModel,
    config: ConfigModel,
    username: Seq<char>,
    rules: RulesModel,
) -> (TxModel, Result<(), Failure>) {
    if config.mail is None {
        (t, Err(no_mail()))
    } else {
        match name_check(rules, username) {
            Err(f) => (t, Err(f)),
            Ok(_) => {
                let asked = mail_asked(t, username, Purpose::Reset);
                let user = named_user(t, username);
                if asked.1 && user is Some && (user->0).enabled && (user->0).email_verified && (
                user->0).password_hash.len() > 0 {
                    let out = mailed(
                        asked.0,
                        config.issuer,
                        user->0,
                        Purpose::Reset,
                        Set::empty(),
                        None,
                        rules,
                    );
                    match out.1 {
                        Err(f) => (t, Err(f)),
                        Ok(_) => (out.0, Ok(())),
                    }
                } else {
                    (asked.0, Ok(()))
                }
            },
        }
    }
}

/// The groups of an invitation, each of which the actor may fill and which exists.
pub open spec fn groups_check(
    t: TxModel,
    names: Seq<Seq<char>>,
    permitted: Set<Seq<char>>,
    missing: Seq<char>,
) -> Result<(), Failure>
    decreases names.len(),
{
    if names.len() == 0 {
        Ok(())
    } else {
        and_also(
            groups_check(t, names.drop_last(), permitted, missing),
            if !permitted.contains(names.last()) {
                Err(Failure::Forbidden)
            } else if !t.groups.dom().contains(names.last()) {
                Err(Failure::Missing(missing))
            } else {
                Ok(())
            },
        )
    }
}

proof fn lemma_groups_check_fails(
    t: TxModel,
    names: Seq<Seq<char>>,
    permitted: Set<Seq<char>>,
    missing: Seq<char>,
    n: int,
)
    requires
        0 <= n <= names.len(),
        groups_check(t, names.take(n), permitted, missing) is Err,
    ensures
        groups_check(t, names, permitted, missing) == groups_check(
            t,
            names.take(n),
            permitted,
            missing,
        ),
    decreases names.len() - n,
{
    if n < names.len() {
        assert(names.take(n + 1).drop_last() =~= names.take(n));
        lemma_groups_check_fails(t, names, permitted, missing, n + 1);
    } else {
        assert(names.take(n) =~= names);
    }
}

#[verifier::loop_isolation(false)]
pub fn check_groups(tx: &Tx, names: &Names, permitted: &Names, missing: &str) -> (r: Result<(), Error>)
    ensures
        agrees(r, groups_check(tx@, in_order(names@), permitted@, missing@)),
{
    let ghost all = in_order(names@);
    let n: usize = names.len();
    let mut i: usize = 0;
    assert(all.take(0) =~= Seq::<Seq<char>>::empty());
    while i < n
        invariant
            i <= n,
            groups_check(tx@, all.take(i as int), permitted@, missing@) is Ok,
        decreases n - i,
    {
        proof {
            assert(all.take(i + 1).drop_last() =~= all.take(i as int));
        }
        let name = names.at(i).as_str();
        if !permitted.contains(name) {
            proof {
                lemma_groups_check_fails(tx@, all, permitted@, missing@, i + 1);
            }
            return Err(Error::Forbidden);
        }
        if !tx.groups.has(name) {
            proof {
                lemma_groups_check_fails(tx@, all, permitted@, missing@, i + 1);
            }
            return Err(Error::missing(missing));
        }
        i = i + 1;
    }
    assert(all.take(n as int) =~= all);
    Ok(())
}

/// What an invitation does. `draft` is the account as the account rules make it; it is stored
/// without a password and disabled.
pub open spec fn invited(
    t: TxModel,
    config: ConfigModel,
    actor: PrincipalModel,
    input: InvitationModel,
    draft: UserModel,
    permitted: Set<Seq<char>>,
    rules: RulesModel,
) -> (TxModel, Result<UserViewModel, Failure>) {
    if config.mail is None {
        (t, Err(no_mail()))
    } else {
        match and_also(
            name_check(rules, input.username),
            and_also(
                rule_check(rules, "display name"@),
                and_also(
                    email_check(input.email, rules),
                    groups_check(
                        t,
                        in_order(input.groups),
                        permitted,
                        "Invitation group not found"@,
                    ),
                ),
            ),
        ) {
            Err(f) => (t, Err(f)),
            Ok(_) => if t.usernames.dom().contains(input.username) {
                (t, Err(Failure::Conflict("User already exists"@)))
            } else {
                let user = UserModel {
                    username: input.username,
                    email: Some(input.email),
                    display_name: input.display_name,
                    password_hash: ""@,
                    enabled: false,
                    admin: false,
                    ..draft
                };
                let u = TxModel {
                    users: t.users.insert(user.id, user),
                    usernames: t.usernames.insert(user.username, user.id),
                    ..t
                };
                let out = mailed(
                    u,
                    config.issuer,
                    user,
                    Purpose::Invite,
                    input.groups,
                    Some(actor.id),
                    rules,
                );
                match out.1 {
                    Err(f) => (t, Err(f)),
                    Ok(_) => (
                        audited(out.0, actor.id, "user.invite"@, user.id),
                        Ok(user_view(user)),
                    ),
                }
            },
        }
    }
}

impl Core {
    /// The user behind a fresh session asks for a code that verifies their address.
    pub fn account_verify_request(&self, tx: &mut Tx, user: &User, auth_time: u64, rules: &Rules) -> (r: Result<
        (),
        Error,
    >)
        ensures
            ({
                let out = verification_requested(
                    old(tx)@,
                    self@.config,
                    user@,
                    auth_time,
                    rules@,
                );
                final(tx)@ == out.0 && agrees(r, out.1)
            }),
    {
        if self.config.mail.is_none() {
            return Err(mail_missing());
        }
        if tx.now.saturating_sub(auth_time) > 300 {
            return Err(Error::Forbidden);
        }
        let limits = tx.mail_limits.dup();
        let asked = request_allowed(tx, user.username.as_str(), Purpose::Verify);
        if asked && !user.email_verified {
            if let Err(e) = enqueue(
                tx,
                self.config.issuer.as_str(),
                user,
                Purpose::Verify,
                Names::new(),
                None,
                rules,
            ) {
                tx.mail_limits = limits;
                return Err(e);
            }
            audit(
                tx,
                user.id.as_str(),
                "account.verification.request",
                user.id.as_str(),
            );
        }
        Ok(())
    }

    /// Somebody asks for a code that resets the password of an account.
    pub fn account_reset_request(&self, tx: &mut Tx, username: &str, rules: &Rules) -> (r: Result<
        (),
        Error,
    >)
        ensures
            ({
                let out = reset_requested(old(tx)@, self@.config, username@, rules@);
                final(tx)@ == out.0 && agrees(r, out.1)
            }),
    {
        if self.config.mail.is_none() {
            return Err(mail_missing());
        }
        if let Err(e) = rules.check_name(username) {
            return Err(e);
        }
        let limits = tx.mail_limits.dup();
        if request_allowed(tx, username, Purpose::Reset) {
            if let Ok(user) = user_by_name(tx, username) {
                if user.enabled && user.email_verified && !user.password_hash.as_str().is_empty() {
                    if let Err(e) = enqueue(
                        tx,
                        self.config.issuer.as_str(),
                        &user,
                        Purpose::Reset,
                        Names::new(),
                        None,
                        rules,
                    ) {
                        tx.mail_limits = limits;
                        return Err(e);
                    }
                }
            }
        }
        Ok(())
    }

    /// Invites somebody to an account that is created disabled. `permitted` are the groups that the
    /// actor may fill.
    pub fn account_invite(
        &self,
        tx: &mut Tx,
        actor: &Principal,
        input: &Invitation,
        draft: &User,
        permitted: &Names,
        rules: &Rules,
    ) -> (r: Result<UserView, Error>)
        ensures
            ({
                let out = invited(
                    old(tx)@,
                    self@.config,
                    actor@,
                    input@,
                    draft@,
                    permitted@,
                    rules@,
                );
                final(tx)@ == out.0 && agrees_with(r, out.1)
            }),
    {
        if self.config.mail.is_none() {
            return Err(mail_missing());
        }
        if let Err(e) = rules.check_name(input.username.as_str()) {
            return Err(e);
        }
        if let Err(e) = rules.check_rule("display name") {
            return Err(e);
        }
        if let Err(e) = email(input.email.as_str(), rules) {
            return Err(e);
        }
        if let Err(e) = check_groups(tx, &input.groups, permitted, "Invitation group not found") {
            return Err(e);
        }
        if tx.usernames.has(input.username.as_str()) {
            return Err(Error::conflict("User already exists"));
        }
        let mut user = draft.dup();
        user.username = input.username.clone();
        user.email = Some(input.email.clone());
        user.display_name = input.display_name.clone();
        user.password_hash = "".to_owned();
        user.enabled = false;
        user.admin = false;
        let users = tx.users.dup();
        let usernames = tx.usernames.dup();
        tx.users.put(user.id.as_str(), user.dup());
        tx.usernames.put(user.username.as_str(), user.id.clone());
        if let Err(e) = enqueue(
            tx,
            self.config.issuer.as_str(),
            &user,
            Purpose::Invite,
            input.groups.copy(),
            Some(actor.id.clone()),
            rules,
        ) {
            tx.users = users;
            tx.usernames = usernames;
            return Err(e);
        }
        audit(tx, actor.id.as_str(), "user.invite", user.id.as_str());
        Ok(user.shown())
    }

    /// Ends an invitation.
    pub fn account_invitation_revoke(&self, tx: &mut Tx, actor: &Principal, username: &str) -> (r: Result<
        (),
        Error,
    >)
        ensures
            ({
                let out = invitation_revoked(old(tx)@, actor@, username@);
                final(tx)@ == out.0 && agrees(r, out.1)
            }),
    {
        let user = match user_by_name(tx, username) {
            Err(e) => return Err(e),
            Ok(u) => u,
        };
        let key = proof_key(user.id.as_str(), Purpose::Invite);
        let hash = match tx.account_latest.get(key.as_str()) {
            Some(h) => Some(h.clone()),
            None => None,
        };
        if let Some(h) = hash {
            tx.account_proofs.delete(h.as_str());
        }
        audit(tx, actor.id.as_str(), "user.invitation.revoke", user.id.as_str());
        Ok(())
    }
}

/// A new password: its hash, and the stored hashes that it matches.
pub struct NewPassword {
    pub hash: String,
    pub matching: Names,
}

/// What a [`NewPassword`] holds.
pub struct NewPasswordModel {
    pub hash: Seq<char>,
    pub matching: Set<Seq<char>>,
}

impl View for NewPassword {
    type V = NewPasswordModel;

    open spec fn view(&self) -> NewPasswordModel {
        NewPasswordModel {
            hash: self.hash@,
            matching: self.matching@,
        }
    }
}

impl Row for NewPassword {
    fn dup(&self) -> (r: Self) {
        NewPassword {
            hash: self.hash.clone(),
            matching: self.matching.copy(),
        }
    }
}

/// What the creator of an invitation may still do.
pub struct CreatorStanding {
    /// An agent that created it stands with its authority.
    pub agent: bool,
    /// The creator may write the invited user.
    pub write: bool,
    /// The groups that the creator may fill.
    pub groups: Names,
}

/// What a [`CreatorStanding`] holds.
pub struct CreatorStandingModel {
    pub agent: bool,
    pub write: bool,
    pub groups: Set<Seq<char>>,
}

impl View for CreatorStanding {
    type V = CreatorStandingModel;

    open spec fn view(&self) -> CreatorStandingModel {
        CreatorStandingModel {
            agent: self.agent,
            write: self.write,
            groups: self.groups@,
        }
    }
}

impl Row for CreatorStanding {
    fn dup(&self) -> (r: Self) {
        CreatorStanding {
            agent: self.agent,
            write: self.write,
            groups: self.groups.copy(),
        }
    }
}

/// A code that stands for its purpose.
pub open spec fn standing_proof(t: TxModel, hash: Seq<char>, p: Purpose) -> Option<AccountProofModel> {
    if t.account_proofs.dom().contains(hash) && t.account_proofs[hash].expires_at > t.now
        && t.account_proofs[hash].purpose == p {
        Some(t.account_proofs[hash])
    } else {
        None
    }
}

/// The account that a proof is still for.
pub open spec fn proven_user(t: TxModel, p: AccountProofModel) -> Option<UserModel> {
    if t.users.dom().contains(p.user_id) && t.users[p.user_id].epoch == p.epoch
        && t.users[p.user_id].email == Some(p.email) {
        Some(t.users[p.user_id])
    } else {
        None
    }
}

/// Whether the creator of an invitation may still admit the user to its groups.
pub open spec fn creator_check(
    t: TxModel,
    p: AccountProofModel,
    c: CreatorStandingModel,
) -> Result<(), Failure> {
    match p.creator {
        None => Err(Failure::Forbidden),
        Some(id) => if (has_prefix(id, "agent:"@) && !c.agent) || (!has_prefix(id, "agent:"@) && (
        !t.users.dom().contains(id) || !t.users[id].enabled || !t.users[id].admin)) || !c.write {
            Err(Failure::Forbidden)
        } else {
            groups_check(t, in_order(p.groups), c.groups, "Invitation group was removed"@)
        },
    }
}

/// The groups with the user in each of these.
pub open spec fn admitted(
    m: Map<Seq<char>, GroupModel>,
    groups: Map<Seq<char>, GroupModel>,
    names: Seq<Seq<char>>,
    user_id: Seq<char>,
) -> Map<Seq<char>, GroupModel>
    decreases names.len(),
{
    if names.len() == 0 {
        m
    } else {
        let g = groups[names.last()];
        admitted(m, groups, names.drop_last(), user_id).insert(
            g.name,
            GroupModel { members: g.members.insert(user_id), ..g },
        )
    }
}

pub open spec fn next_epoch(n: u64) -> u64 {
    extended(n, 1)
}

/// What the use of a code comes to, once its proof and account were found.
pub open spec fn used(
    t: TxModel,
    config: ConfigModel,
    proof: AccountProofModel,
    user: UserModel,
    p: Purpose,
    password: Option<NewPasswordModel>,
    creator: CreatorStandingModel,
) -> Result<(TxModel, UserModel), Failure> {
    match p {
        Purpose::Verify => if user.enabled {
            Ok((t, UserModel { email_verified: true, ..user }))
        } else {
            Err(Failure::Forbidden)
        },
        Purpose::Reset => if user.enabled && user.email_verified && user.password_hash.len() > 0 {
            let out = password_accepted(
                t,
                config.password_history,
                user.id,
                user.password_hash,
                (password->0).matching,
                (password->0).hash,
            );
            match out.1 {
                Err(f) => Err(f),
                Ok(_) => Ok(
                    (
                        out.0,
                        UserModel {
                            password_hash: (password->0).hash,
                            epoch: next_epoch(user.epoch),
                            ..user
                        },
                    ),
                ),
            }
        } else {
            Err(Failure::Forbidden)
        },
        Purpose::Invite => if !user.enabled && !user.admin && user.password_hash.len() == 0 {
            match creator_check(t, proof, creator) {
                Err(f) => Err(f),
                Ok(_) => {
                    let u = TxModel {
                        groups: admitted(t.groups, t.groups, in_order(proof.groups), user.id),
                        ..t
                    };
                    let out = password_accepted(
                        u,
                        config.password_history,
                        user.id,
                        user.password_hash,
                        (password->0).matching,
                        (password->0).hash,
                    );
                    match out.1 {
                        Err(f) => Err(f),
                        Ok(_) => Ok(
                            (
                                out.0,
                                UserModel {
                                    password_hash: (password->0).hash,
                                    enabled: true,
                                    email_verified: true,
                                    epoch: next_epoch(user.epoch),
                                    ..user
                                },
                            ),
                        ),
                    }
                },
            }
        } else {
            Err(Failure::Forbidden)
        },
    }
}

/// What completing with a code does: the code is used up.
pub open spec fn completed(
    t: TxModel,
    config: ConfigModel,
    token: Seq<char>,
    p: Purpose,
    password: Option<NewPasswordModel>,
    creator: CreatorStandingModel,
) -> (TxModel, Result<(), Failure>) {
    if !has_prefix(token, "ri_mail_"@) || byte_count(token) > 128 {
        (t, Err(Failure::Bad("Invalid account code"@)))
    } else if p == Purpose::Verify && password is Some {
        (t, Err(Failure::Bad("Verification does not accept a password"@)))
    } else if p != Purpose::Verify && password is None {
        (t, Err(Failure::Bad("New password required"@)))
    } else {
        let hash = digest_of(token);
        match standing_proof(t, hash, p) {
            None => (t, Err(Failure::Bad("Account code expired, consumed or invalid"@))),
            Some(proof) => match proven_user(t, proof) {
                None => (t, Err(Failure::Bad("Account changed; request a new code"@))),
                Some(user) => match used(t, config, proof, user, p, password, creator) {
                    Err(f) => (t, Err(f)),
                    Ok(x) => {
                        let next = x.1;
                        let u = TxModel {
                            account_proofs: x.0.account_proofs.remove(hash),
                            account_latest: x.0.account_latest.remove(
                                proof_key_of(next.id, p),
                            ),
                            users: x.0.users.insert(next.id, next),
                            ..x.0
                        };
                        let v = if p == Purpose::Verify {
                            u
                        } else {
                            queued(
                                TxModel { attempts: u.attempts.remove(next.username), ..u },
                                SelectionModel::User(next.id),
                            )
                        };
                        (
                            audited(
                                v,
                                next.id,
                                "user.account."@ + purpose_name(p),
                                next.id,
                            ),
                            Ok(()),
                        )
                    },
                },
            },
        }
    }
}

fn check_creator(tx: &Tx, proof: &AccountProof, c: &CreatorStanding) -> (r: Result<(), Error>)
    ensures
        agrees(r, creator_check(tx@, proof@, c@)),
{
    let id = match &proof.creator {
        None => return Err(Error::Forbidden),
        Some(id) => id.as_str(),
    };
    if starts_with(id, "agent:") {
        if !c.agent {
            return Err(Error::Forbidden);
        }
    } else {
        let stands = match tx.users.get(id) {
            Some(u) => u.enabled && u.admin,
            None => false,
        };
        if !stands {
            return Err(Error::Forbidden);
        }
    }
    if !c.write {
        return Err(Error::Forbidden);
    }
    check_groups(tx, &proof.groups, &c.groups, "Invitation group was removed")
}

#[verifier::loop_isolation(false)]
fn admit_to(tx: &Tx, names: &Names, user_id: &str) -> (r: Table<Group>)
    requires
        forall|k: int|
            0 <= k < in_order(names@).len() ==> tx@.groups.dom().contains(
                #[trigger] in_order(names@)[k],
            ),
    ensures
        r@ == admitted(tx@.groups, tx@.groups, in_order(names@), user_id@),
{
    let ghost all = in_order(names@);
    let n: usize = names.len();
    let mut out = tx.groups.dup();
    let mut i: usize = 0;
    assert(all.take(0) =~= Seq::<Seq<char>>::empty());
    while i < n
        invariant
            i <= n,
            out@ == admitted(tx@.groups, tx@.groups, all.take(i as int), user_id@),
        decreases n - i,
    {
        proof {
            assert(all.take(i + 1).drop_last() =~= all.take(i as int));
            assert(tx@.groups.dom().contains(all[i as int]));
        }
        if let Some(g) = tx.groups.get(names.at(i).as_str()) {
            let mut x = g.dup();
            x.members.insert(user_id);
            let name = x.name.clone();
            out.put(name.as_str(), x);
        }
        i = i + 1;
    }
    assert(all.take(n as int) =~= all);
    out
}

proof fn lemma_groups_exist(
    t: TxModel,
    names: Seq<Seq<char>>,
    permitted: Set<Seq<char>>,
    missing: Seq<char>,
)
    requires
        groups_check(t, names, permitted, missing) is Ok,
    ensures
        forall|k: int| 0 <= k < names.len() ==> t.groups.dom().contains(#[trigger] names[k]),
    decreases names.len(),
{
    if names.len() > 0 {
        lemma_groups_exist(t, names.drop_last(), permitted, missing);
        assert forall|k: int| 0 <= k < names.len() implies t.groups.dom().contains(
            #[trigger] names[k],
        ) by {
            if k < names.len() - 1 {
                assert(names.drop_last()[k] == names[k]);
            }
        }
    }
}

impl Core {
    fn apply_code(
        &self,
        tx: &mut Tx,
        proof: &AccountProof,
        user: &mut User,
        purpose: Purpose,
        password: &Option<NewPassword>,
        creator: &CreatorStanding,
    ) -> (r: Result<(), Error>)
        requires
            purpose != Purpose::Verify ==> *password is Some,
        ensures
            match used(
                old(tx)@,
                self@.config,
                proof@,
                old(user)@,
                purpose,
                opt_view(*password),
                creator@,
            ) {
                Ok(x) => r is Ok && final(tx)@ == x.0 && final(user)@ == x.1,
                Err(f) => fails(r, f) && final(tx)@ == old(tx)@,
            },
    {
        match purpose {
            Purpose::Verify => {
                if !user.enabled {
                    return Err(Error::Forbidden);
                }
                user.email_verified = true;
                Ok(())
            },
            Purpose::Reset => {
                if !(user.enabled && user.email_verified && !user.password_hash.as_str().is_empty()) {
                    return Err(Error::Forbidden);
                }
                if let Some(new) = password {
                    if let Err(e) = accept(
                        tx,
                        self.config.password_history,
                        user.id.as_str(),
                        user.password_hash.as_str(),
                        &new.matching,
                        new.hash.as_str(),
                    ) {
                        return Err(e);
                    }
                    user.password_hash = new.hash.clone();
                }
                user.epoch = user.epoch.saturating_add(1);
                Ok(())
            },
            Purpose::Invite => {
                if user.enabled || user.admin || !user.password_hash.as_str().is_empty() {
                    return Err(Error::Forbidden);
                }
                if let Err(e) = check_creator(tx, proof, creator) {
                    return Err(e);
                }
                proof {
                    lemma_groups_exist(
                        tx@,
                        in_order(proof@.groups),
                        creator@.groups,
                        "Invitation group was removed"@,
                    );
                }
                let groups = admit_to(tx, &proof.groups, user.id.as_str());
                let before_groups = tx.groups.dup();
                tx.groups = groups;
                if let Some(new) = password {
                    if let Err(e) = accept(
                        tx,
                        self.config.password_history,
                        user.id.as_str(),
                        user.password_hash.as_str(),
                        &new.matching,
                        new.hash.as_str(),
                    ) {
                        tx.groups = before_groups;
                        return Err(e);
                    }
                    user.password_hash = new.hash.clone();
                }
                user.enabled = true;
                user.email_verified = true;
                user.epoch = user.epoch.saturating_add(1);
                Ok(())
            },
        }
    }

    /// Uses a code: verifies an address, resets a password or accepts an invitation.
    pub fn account_complete(
        &self,
        tx: &mut Tx,
        token: &str,
        purpose: Purpose,
        password: &Option<NewPassword>,
        creator: &CreatorStanding,
    ) -> (r: Result<(), Error>)
        ensures
            ({
                let out = completed(
                    old(tx)@,
                    self@.config,
                    token@,
                    purpose,
                    opt_view(*password),
                    creator@,
                );
                final(tx)@ == out.0 && agrees(r, out.1)
            }),
    {
        if !starts_with(token, "ri_mail_") || byte_len(token) > 128 {
            return Err(Error::bad("Invalid account code"));
        }
        let verify = match purpose {
            Purpose::Verify => true,
            _ => false,
        };
        if verify && password.is_some() {
            return Err(Error::bad("Verification does not accept a password"));
        }
        if !verify && password.is_none() {
            return Err(Error::bad("New password required"));
        }
        let hash = digest(token);
        let proof_row = match tx.account_proofs.get(hash.as_str()) {
            None => return Err(Error::bad("Account code expired, consumed or invalid")),
            Some(p) => p.dup(),
        };
        if proof_row.expires_at <= tx.now || proof_row.purpose != purpose {
            return Err(Error::bad("Account code expired, consumed or invalid"));
        }
        let mut user = match tx.users.get(proof_row.user_id.as_str()) {
            None => return Err(Error::bad("Account changed; request a new code")),
            Some(u) => u.dup(),
        };
        if user.epoch != proof_row.epoch || !opt_is(&user.email, proof_row.email.as_str()) {
            return Err(Error::bad("Account changed; request a new code"));
        }
        if let Err(e) = self.apply_code(tx, &proof_row, &mut user, purpose, password, creator) {
            return Err(e);
        }
        tx.account_proofs.delete(hash.as_str());
        let key = proof_key(user.id.as_str(), purpose);
        tx.account_latest.delete(key.as_str());
        let id = user.id.clone();
        let username = user.username.clone();
        tx.users.put(id.as_str(), user);
        if !verify {
            tx.attempts.delete(username.as_str());
            queue_user(tx, id.as_str());
        }
        let action = concat("user.account.", purpose.name());
        audit(tx, id.as_str(), action.as_str(), id.as_str());
        Ok(())
    }
}

proof fn lemma_queue_keeps_proofs(t: TxModel, keys: Seq<Seq<char>>, s: SelectionModel)
    ensures
        ended_all(t, keys, s).account_proofs == t.account_proofs,
    decreases keys.len(),
{
    if keys.len() > 0 {
        lemma_queue_keeps_proofs(t, keys.drop_last(), s);
    }
}

proof fn lemma_queue_keeps_accounts(t: TxModel, keys: Seq<Seq<char>>, s: SelectionModel)
    ensures
        ended_all(t, keys, s).users == t.users,
        ended_all(t, keys, s).passkeys == t.passkeys,
    decreases keys.len(),
{
    if keys.len() > 0 {
        lemma_queue_keeps_accounts(t, keys.drop_last(), s);
    }
}

/// A reset changes the password and ends what was signed in with the old one, and nothing else of
/// the account: the second factor and its recovery codes, the passkeys and every right stay, and so
/// does every other account.
pub proof fn resets_keep_the_second_factor(
    t: TxModel,
    config: ConfigModel,
    token: Seq<char>,
    password: Option<NewPasswordModel>,
    creator: CreatorStandingModel,
    user: UserModel,
)
    requires
        completed(t, config, token, Purpose::Reset, password, creator).1 is Ok,
        proven_user(t, standing_proof(t, digest_of(token), Purpose::Reset)->0) == Some(user),
    ensures
        ({
            let u = completed(t, config, token, Purpose::Reset, password, creator).0;
            let next = u.users[user.id];
            &&& u.users == t.users.insert(user.id, next)
            &&& u.passkeys == t.passkeys
            &&& next.password_hash == (password->0).hash
            &&& next.epoch == next_epoch(user.epoch)
            &&& next.totp_secret == user.totp_secret
            &&& next.totp_settings == user.totp_settings
            &&& next.totp_last_step == user.totp_last_step
            &&& next.recovery_codes == user.recovery_codes
            &&& next.has_passkeys == user.has_passkeys
            &&& next.enabled == user.enabled
            &&& next.admin == user.admin
            &&& next.email == user.email
            &&& next == (UserModel {
                password_hash: (password->0).hash,
                epoch: next_epoch(user.epoch),
                ..user
            })
        }),
{
    let hash = digest_of(token);
    let proof_row = standing_proof(t, hash, Purpose::Reset)->0;
    let x = used(t, config, proof_row, user, Purpose::Reset, password, creator)->Ok_0;
    let next = x.1;
    let u = TxModel {
        account_proofs: x.0.account_proofs.remove(hash),
        account_latest: x.0.account_latest.remove(proof_key_of(next.id, Purpose::Reset)),
        users: x.0.users.insert(next.id, next),
        ..x.0
    };
    let v = TxModel { attempts: u.attempts.remove(next.username), ..u };
    lemma_queue_keeps_accounts(v, in_order(v.rp_sessions.dom()), SelectionModel::User(next.id));
}

/// A code works once: after it was used, it is refused for every purpose.
pub proof fn codes_work_once(
    t: TxModel,
    config: ConfigModel,
    token: Seq<char>,
    p: Purpose,
    password: Option<NewPasswordModel>,
    creator: CreatorStandingModel,
    again: Purpose,
    second: Option<NewPasswordModel>,
)
    requires
        completed(t, config, token, p, password, creator).1 is Ok,
        again == Purpose::Verify <==> second is None,
    ensures
        ({
            let u = completed(t, config, token, p, password, creator).0;
            completed(u, config, token, again, second, creator) == (
                u,
                Err::<(), Failure>(Failure::Bad("Account code expired, consumed or invalid"@)),
            )
        }),
{
    let hash = digest_of(token);
    let proof_row = standing_proof(t, hash, p)->0;
    let user = proven_user(t, proof_row)->0;
    let x = used(t, config, proof_row, user, p, password, creator)->Ok_0;
    let next = x.1;
    let u = TxModel {
        account_proofs: x.0.account_proofs.remove(hash),
        account_latest: x.0.account_latest.remove(proof_key_of(next.id, p)),
        users: x.0.users.insert(next.id, next),
        ..x.0
    };
    let v = TxModel { attempts: u.attempts.remove(next.username), ..u };
    lemma_queue_keeps_proofs(v, in_order(v.rp_sessions.dom()), SelectionModel::User(next.id));
}

/// A code for one purpose is refused for another.
pub proof fn codes_are_bound_to_their_purpose(
    t: TxModel,
    config: ConfigModel,
    token: Seq<char>,
    p: Purpose,
    other: Purpose,
    password: Option<NewPasswordModel>,
    creator: CreatorStandingModel,
)
    requires
        standing_proof(t, digest_of(token), p) is Some,
        other != p,
    ensures
        completed(t, config, token, other, password, creator).1 is Err,
        completed(t, config, token, other, password, creator).0 == t,
{
}

/// What a message gives. It goes to the address of the account, and carries a code that stands for
/// this account, as it is now, and for this purpose alone: a day to verify an address, half an hour to
/// set a new password, a week to accept an invitation. The code before it stands no longer.
pub proof fn messages_carry_a_code_for_the_account(
    t: TxModel,
    issuer: Seq<char>,
    user: UserModel,
    p: Purpose,
    groups: Set<Seq<char>>,
    creator: Option<Seq<char>>,
    rules: RulesModel,
)
    requires
        mailed(t, issuer, user, p, groups, creator, rules).1 is Ok,
        t.now + 604800 <= u64::MAX,
    ensures
        ({
            let u = mailed(t, issuer, user, p, groups, creator, rules).0;
            let d = u.mail_deliveries[next_id(drawn(t))];
            let proof = u.account_proofs[d.proof];
            let lifetime: int = match p {
                Purpose::Verify => 86400,
                Purpose::Reset => 1800,
                Purpose::Invite => 604800,
            };
            &&& u.mail_deliveries.dom().contains(next_id(drawn(t)))
            &&& u.account_proofs.dom().contains(d.proof)
            &&& user.email == Some(d.recipient)
            &&& d.proof == digest_of("ri_mail_"@ + next_id(t))
            &&& d.body is Some && d.attempts == 0 && d.lease is None && d.delivered_at is None
                && !d.stopped
            &&& d.next_attempt == t.now && d.created_at == t.now
            &&& d.expires_at == t.now + lifetime
            &&& proof.expires_at == t.now + lifetime
            &&& proof.purpose == p
            &&& proof.user_id == user.id
            &&& proof.email == d.recipient
            &&& proof.epoch == user.epoch
            &&& proof.groups == groups
            &&& proof.creator == creator
            &&& t.account_latest.dom().contains(proof_key_of(user.id, p)) ==> {
                let before = t.account_latest[proof_key_of(user.id, p)];
                before == d.proof || !u.account_proofs.dom().contains(before)
            }
            &&& u.users == t.users
        }),
{
}

/// The account that a code was sent for can use it until it expires, unless the account has changed.
pub proof fn sent_codes_can_be_used(
    t: TxModel,
    config: ConfigModel,
    token: Seq<char>,
    creator: CreatorStandingModel,
)
    requires
        has_prefix(token, "ri_mail_"@) && byte_count(token) <= 128,
        t.account_proofs.dom().contains(digest_of(token)),
        ({
            let proof = t.account_proofs[digest_of(token)];
            &&& proof.purpose is Verify
            &&& proof.expires_at > t.now
            &&& t.users.dom().contains(proof.user_id)
            &&& t.users[proof.user_id].epoch == proof.epoch
            &&& t.users[proof.user_id].email == Some(proof.email)
            &&& t.users[proof.user_id].enabled
            &&& t.users[proof.user_id].id == proof.user_id
        }),
    ensures
        ({
            let id = t.account_proofs[digest_of(token)].user_id;
            let out = completed(t, config, token, Purpose::Verify, None, creator);
            &&& out.1 is Ok
            &&& out.0.users[id] == (UserModel { email_verified: true, ..t.users[id] })
            &&& forall|k: Seq<char>| k != id ==> #[trigger] out.0.users[k] == t.users[k]
            &&& out.0.users.dom() == t.users.dom()
            &&& !out.0.account_proofs.dom().contains(digest_of(token))
            &&& out.0.sessions == t.sessions
        }),
{
    let id = t.account_proofs[digest_of(token)].user_id;
    let out = completed(t, config, token, Purpose::Verify, None, creator);
    assert(out.0.users.dom() =~= t.users.dom());
}

/// Who accepts an invitation gets an account that is enabled, with the password that they chose, a
/// verified address, no rights beyond the groups of the invitation, and a new epoch; and only an account
/// that was waiting for this becomes one.
pub proof fn accepted_invitations_enable_the_account(
    t: TxModel,
    config: ConfigModel,
    token: Seq<char>,
    password: Option<NewPasswordModel>,
    creator: CreatorStandingModel,
    user: UserModel,
)
    requires
        completed(t, config, token, Purpose::Invite, password, creator).1 is Ok,
        t.account_proofs.dom().contains(digest_of(token)),
        t.users[t.account_proofs[digest_of(token)].user_id] == user,
        user.epoch < u64::MAX,
    ensures
        ({
            let u = completed(t, config, token, Purpose::Invite, password, creator).0;
            let next = u.users[user.id];
            &&& !user.enabled && !user.admin && user.password_hash.len() == 0
            &&& next.enabled && next.email_verified && !next.admin
            &&& password is Some && next.password_hash == (password->0).hash
            &&& next.epoch == user.epoch + 1
            &&& next.username == user.username && next.email == user.email
            &&& creator.write
            &&& t.account_proofs[digest_of(token)].creator is Some
            &&& !u.attempts.dom().contains(user.username)
        }),
{
    let x = used(
        t,
        config,
        t.account_proofs[digest_of(token)],
        user,
        Purpose::Invite,
        password,
        creator,
    )->Ok_0;
    lemma_queued_keeps_accounts(
        TxModel {
            account_proofs: x.0.account_proofs.remove(digest_of(token)),
            account_latest: x.0.account_latest.remove(proof_key_of(user.id, Purpose::Invite)),
            users: x.0.users.insert(user.id, x.1),
            attempts: x.0.attempts.remove(user.username),
            ..x.0
        },
        SelectionModel::User(user.id),
    );
}

proof fn lemma_queued_keeps_accounts(t: TxModel, s: SelectionModel)
    ensures
        queued(t, s).users == t.users,
        queued(t, s).attempts == t.attempts,
{
    lemma_ended_all_keeps_accounts(t, in_order(t.rp_sessions.dom()), s);
}

proof fn lemma_ended_all_keeps_accounts(t: TxModel, keys: Seq<Seq<char>>, s: SelectionModel)
    ensures
        ended_all(t, keys, s).users == t.users,
        ended_all(t, keys, s).attempts == t.attempts,
    decreases keys.len(),
{
    if keys.len() > 0 {
        lemma_ended_all_keeps_accounts(t, keys.drop_last(), s);
    }
}

/// Nobody learns by asking whether an account can be reset: a request is answered alike for each name;
/// and only an account that is enabled, with a verified address and a password, is sent a code.
pub proof fn reset_requests_tell_nothing(
    t: TxModel,
    config: ConfigModel,
    username: Seq<char>,
    rules: RulesModel,
)
    requires
        config.mail is Some,
        name_check(rules, username) is Ok,
        rules.refused == Set::<Seq<char>>::empty(),
        forall|k: Seq<char>| #[trigger]
            t.users.dom().contains(k) && t.users[k].email is Some ==> mail_address(
                t.users[k].email->0,
            ),
        named_user(t, username) is Some ==> (named_user(t, username)->0).email is Some
            && t.users.dom().contains(t.usernames[username]) && named_user(t, username)->0
            == t.users[t.usernames[username]],
    ensures
        reset_requested(t, config, username, rules).1 is Ok,
        reset_requested(t, config, username, rules).0.mail_deliveries != t.mail_deliveries ==> (
        named_user(t, username) matches Some(u) && u.enabled && u.email_verified
            && u.password_hash.len() > 0),
{
}

/// Mail is sent for a name that nobody asked about within the last minute, and that fewer than five
/// requests of the current hour were about.
pub proof fn rested_names_are_mailed(t: TxModel, username: Seq<char>, p: Purpose)
    requires
        t.mail_limits.dom().len() < 10000,
        t.mail_limits.dom().contains(limit_key(username, p)) ==> {
            let l = t.mail_limits[limit_key(username, p)];
            l.last + 60 <= t.now && l.count < 5
        },
        t.now >= 60,
    ensures
        mail_asked(t, username, p).1,
        mail_asked(t, username, p).0.mail_limits[limit_key(username, p)].last == t.now,
        mail_asked(t, username, p).0.mail_limits[limit_key(username, p)].count >= 1,
{
}

/// An invitation makes an account that cannot be used yet, under a name that was free, in nobody's
/// groups; and mails its code to the address of the invitation.
pub proof fn invitations_make_a_waiting_account(
    t: TxModel,
    config: ConfigModel,
    actor: PrincipalModel,
    input: InvitationModel,
    draft: UserModel,
    permitted: Set<Seq<char>>,
    rules: RulesModel,
)
    requires
        invited(t, config, actor, input, draft, permitted, rules).1 is Ok,
    ensures
        ({
            let out = invited(t, config, actor, input, draft, permitted, rules);
            let user = out.0.users[draft.id];
            let d = out.0.mail_deliveries[next_id(drawn(t))];
            &&& config.mail is Some
            &&& !t.usernames.dom().contains(input.username)
            &&& out.0.users.dom().contains(draft.id)
            &&& out.0.usernames[input.username] == draft.id
            &&& user.username == input.username && user.email == Some(input.email)
                && user.display_name == input.display_name
            &&& !user.enabled && !user.admin && user.password_hash == ""@
            &&& out.0.groups == t.groups
            &&& d.recipient == input.email
            &&& out.0.account_proofs[d.proof].purpose is Invite
            &&& out.0.account_proofs[d.proof].groups == input.groups
            &&& out.0.account_proofs[d.proof].creator == Some(actor.id)
            &&& out.0.account_proofs[d.proof].user_id == draft.id
        }),
{
}

/// What it does to revoke an invitation: its code stands no longer.
pub open spec fn invitation_revoked(t: TxModel, actor: PrincipalModel, username: Seq<char>) -> (
    TxModel,
    Result<(), Failure>,
) {
    match named_user(t, username) {
        None => (t, Err(Failure::Missing("User not found"@))),
        Some(user) => {
            let key = proof_key_of(user.id, Purpose::Invite);
            (
                audited(
                    TxModel {
                        account_proofs: if t.account_latest.dom().contains(key) {
                            t.account_proofs.remove(t.account_latest[key])
                        } else {
                            t.account_proofs
                        },
                        ..t
                    },
                    actor.id,
                    "user.invitation.revoke"@,
                    user.id,
                ),
                Ok(()),
            )
        },
    }
}

/// A revoked invitation cannot be accepted.
pub proof fn revoked_invitations_are_not_accepted(
    t: TxModel,
    actor: PrincipalModel,
    username: Seq<char>,
    user: UserModel,
    config: ConfigModel,
    token: Seq<char>,
    password: Option<NewPasswordModel>,
    creator: CreatorStandingModel,
)
    requires
        named_user(t, username) == Some(user),
        t.account_latest.dom().contains(user.id + ":"@ + "accept"@),
        t.account_latest[user.id + ":"@ + "accept"@] == digest_of(token),
    ensures
        invitation_revoked(t, actor, username).1 is Ok,
        completed(
            invitation_revoked(t, actor, username).0,
            config,
            token,
            Purpose::Invite,
            password,
            creator,
        ).1 is Err,
        invitation_revoked(t, actor, username).0.users == t.users,
        invitation_revoked(t, actor, username).0.audit.last().action == "user.invitation.revoke"@,
{
}

/// A name gets five messages of a kind within an hour and one within a minute, no more; after the
/// hour the count begins anew.
pub proof fn messages_are_rationed(t: TxModel, username: Seq<char>, p: Purpose)
    requires
        t.mail_limits.dom().contains(limit_key(username, p)),
        0 < t.mail_limits[limit_key(username, p)].start <= t.mail_limits[limit_key(username, p)].last
            <= t.now,
        60 <= t.now <= u64::MAX - 3600,
    ensures
        ({
            let key = limit_key(username, p);
            let was = t.mail_limits[key];
            let over = t.now - was.start >= 3600;
            let (u, allowed) = mail_asked(t, username, p);
            &&& allowed <==> over || (was.count < 5 && t.now - was.last >= 60)
            &&& !allowed ==> u == t
            &&& allowed ==> u.mail_limits[key].last == t.now
            &&& allowed ==> u.mail_limits[key].count as int == (if over {
                1
            } else {
                was.count + 1
            })
            &&& allowed ==> u.mail_limits[key].start == (if over {
                t.now
            } else {
                was.start
            })
            &&& forall|k: Seq<char>|
                k != key && t.mail_limits.dom().contains(k) ==> (#[trigger] u.mail_limits[k]) == t.mail_limits[k]
                    && u.mail_limits.dom().contains(k)
        }),
{
}

/// A message to verify an address is asked for by somebody who signed in within the last five minutes,
/// and is sent to an address that is not verified yet.
pub proof fn verification_needs_a_recent_login(
    t: TxModel,
    config: ConfigModel,
    user: UserModel,
    auth_time: u64,
    rules: RulesModel,
)
    ensures
        config.mail is None ==> verification_requested(t, config, user, auth_time, rules).1 is Err,
        auth_time + 300 < t.now && config.mail is Some ==> verification_requested(
            t,
            config,
            user,
            auth_time,
            rules,
        ) == (t, Err::<(), Failure>(Failure::Forbidden)),
        config.mail is Some && t.now <= auth_time + 300 && user.email_verified ==> {
            let (u, r) = verification_requested(t, config, user, auth_time, rules);
            r is Ok && u.mail_deliveries == t.mail_deliveries && u.account_proofs == t.account_proofs
                && u.audit == t.audit
        },
        verification_requested(t, config, user, auth_time, rules).1 is Err ==> verification_requested(
            t,
            config,
            user,
            auth_time,
            rules,
        ).0 == t,
{
}

/// Groups can be given if each of them is there and may be given.
pub proof fn groups_are_given_one_by_one(
    t: TxModel,
    names: Seq<Seq<char>>,
    permitted: Set<Seq<char>>,
    missing: Seq<char>,
)
    ensures
        groups_check(t, names, permitted, missing) is Ok <==> forall|i: int|
            0 <= i < names.len() ==> permitted.contains(#[trigger] names[i]) && t.groups.dom().contains(
                names[i],
            ),
    decreases names.len(),
{
    if names.len() > 0 {
        let w = names.drop_last();
        groups_are_given_one_by_one(t, w, permitted, missing);
        if groups_check(t, names, permitted, missing) is Ok {
            assert forall|i: int| 0 <= i < names.len() implies permitted.contains(#[trigger] names[i])
                && t.groups.dom().contains(names[i]) by {
                if i < w.len() {
                    assert(w[i] == names[i]);
                }
            }
        }
        if forall|i: int|
            0 <= i < names.len() ==> permitted.contains(#[trigger] names[i]) && t.groups.dom().contains(
                names[i],
            ) {
            assert forall|i: int| 0 <= i < w.len() implies permitted.contains(#[trigger] w[i])
                && t.groups.dom().contains(w[i]) by {
                assert(w[i] == names[i]);
            }
            assert(permitted.contains(names[names.len() - 1]));
        }
    }
}

/// Mail goes to a plain host and port, from an address, with a name and a password or neither, and
/// unencrypted only on the machine itself.
pub proof fn mail_servers_are_encrypted_or_local(c: MailConfigModel, loopback: bool)
    ensures
        mail_check(c, loopback) is Ok <==> {
            let u = url_of("https://"@ + c.host)->0;
            &&& url_of("https://"@ + c.host) is Some
            &&& u.host is Some
            &&& u.path == "/"@
            &&& u.query is None && u.fragment is None
            &&& u.username == ""@ && u.password is None && u.port is None
            &&& c.port > 0
            &&& mail_box(c.from)
            &&& c.username is Some <==> c.password_file is Some
            &&& c.security == MailSecurity::Loopback ==> loopback
        },
{
}

/// A user who is admitted is a member of every group that was named; everybody who was stays one, and
/// other groups do not change.
pub proof fn admitted_users_join_their_groups(
    groups: Map<Seq<char>, GroupModel>,
    names: Seq<Seq<char>>,
    user_id: Seq<char>,
    g: Seq<char>,
)
    requires
        forall|k: Seq<char>| #[trigger] groups.dom().contains(k) ==> groups[k].name == k,
        forall|i: int| 0 <= i < names.len() ==> groups.dom().contains(#[trigger] names[i]),
        groups.dom().contains(g),
    ensures
        ({
            let m = admitted(groups, groups, names, user_id);
            &&& m.dom().contains(g)
            &&& names.contains(g) ==> m[g].members == groups[g].members.insert(user_id) && m[g].name == g
            &&& !names.contains(g) ==> m[g] == groups[g]
        }),
    decreases names.len(),
{
    if names.len() > 0 {
        let d = names.drop_last();
        assert forall|i: int| 0 <= i < d.len() implies groups.dom().contains(#[trigger] d[i]) by {
            assert(names[i] == d[i]);
        }
        admitted_users_join_their_groups(groups, d, user_id, g);
        let last = names.last();
        assert(groups.dom().contains(names[names.len() - 1]));
        assert(groups[last].name == last);
        if d.contains(g) {
            assert(names[d.index_of(g)] == g);
        }
        if names.contains(g) && g != last {
            let i = names.index_of(g);
            assert(d[i] == g);
        }
        if g == last {
            assert(names[names.len() - 1] == g);
        }
    }
}

/// A code is used while it stands, for what it was sent for, by an account that is as it was; a new
/// password comes with every use but a verification. A use that is refused changes nothing.
pub proof fn codes_are_used_while_they_stand(
    t: TxModel,
    config: ConfigModel,
    token: Seq<char>,
    p: Purpose,
    password: Option<NewPasswordModel>,
    creator: CreatorStandingModel,
)
    ensures
        completed(t, config, token, p, password, creator).1 is Ok ==> {
            let proof = t.account_proofs[digest_of(token)];
            let user = t.users[proof.user_id];
            &&& t.account_proofs.dom().contains(digest_of(token))
            &&& proof.expires_at > t.now
            &&& proof.purpose == p
            &&& t.users.dom().contains(proof.user_id)
            &&& user.epoch == proof.epoch
            &&& user.email == Some(proof.email)
            &&& password is Some <==> p != Purpose::Verify
            &&& p == Purpose::Reset ==> user.enabled && user.email_verified && user.password_hash.len() > 0
            &&& p == Purpose::Invite ==> !user.enabled && creator_check(t, proof, creator) is Ok
            &&& p == Purpose::Verify ==> user.enabled
        },
        completed(t, config, token, p, password, creator).1 is Err ==> completed(
            t,
            config,
            token,
            p,
            password,
            creator,
        ).0 == t,
{
}

/// An invitation stands on who made it: an administrator who still is one, or an agent that is still
/// active, who may still write, and who may still give every group of it.
pub proof fn invitations_stand_on_their_creator(t: TxModel, p: AccountProofModel, c: CreatorStandingModel)
    ensures
        creator_check(t, p, c) is Ok <==> {
            let id = p.creator->0;
            &&& p.creator is Some
            &&& c.write
            &&& has_prefix(id, "agent:"@) ==> c.agent
            &&& !has_prefix(id, "agent:"@) ==> t.users.dom().contains(id) && t.users[id].enabled
                && t.users[id].admin
            &&& groups_check(t, in_order(p.groups), c.groups, "Invitation group was removed"@) is Ok
        },
{
}

/// A password that is set with a code is remembered as the latest of its account, and refused if it was
/// used recently.
pub proof fn passwords_set_by_code_are_remembered(
    t: TxModel,
    config: ConfigModel,
    row: AccountProofModel,
    user: UserModel,
    p: Purpose,
    password: NewPasswordModel,
    creator: CreatorStandingModel,
)
    requires
        used(t, config, row, user, p, Some(password), creator) is Ok,
        p != Purpose::Verify,
        config.password_history > 0,
        password.hash.len() > 0,
    ensures
        ({
            let (u, next) = used(t, config, row, user, p, Some(password), creator)->Ok_0;
            let h = u.password_history[user.id].hashes;
            &&& u.password_history.dom().contains(user.id)
            &&& 0 < h.len() <= config.password_history
            &&& h.last() == password.hash
            &&& next.password_hash == password.hash
            &&& user.password_hash.len() > 0 ==> !password.matching.contains(user.password_hash)
            &&& forall|k: Seq<char>|
                k != user.id && t.password_history.dom().contains(k) ==> u.password_history.dom().contains(k)
                    && (#[trigger] u.password_history[k]) == t.password_history[k]
        }),
{
    let base = if p == Purpose::Reset {
        t
    } else {
        TxModel { groups: admitted(t.groups, t.groups, in_order(row.groups), user.id), ..t }
    };
    history_is_bounded_and_current(
        base,
        config.password_history,
        user.id,
        user.password_hash,
        password.matching,
        password.hash,
    );
}

} // verus!
